//! What a directive handler may know about where it runs: the source file,
//! the base directory its relative paths resolve against, and a way to read
//! files.

use vstd::prelude::*;
use crate::directive::args::{first_where, lemma_first_where};
use crate::text::{chars_of, string_of, sub_vec};

verus! {

#[verifier::external_type_specification]
#[verifier::external_body]
pub struct ExIoError(std::io::Error);

/// Why a relative path was refused.
#[derive(Debug, Clone, Copy, PartialEq, Eq, Structural, Hash)]
pub enum ResolveError {
    /// The path is absolute; only paths relative to the base directory are allowed.
    Absolute,
    /// The path uses a Windows-specific prefix.
    WindowsPrefix,
    /// The path escapes the base directory.
    Traversal,
    /// The path contains a control character.
    InvalidChar,
}

impl ResolveError {
    /// The error's message.
    pub fn message(&self) -> (r: &'static str)
        ensures
            r@ == resolve_error_message(*self),
    {
        match self {
            ResolveError::Absolute => "path is absolute; only paths relative to the base directory are allowed",
            ResolveError::WindowsPrefix => "path uses a Windows-specific prefix that is not allowed",
            ResolveError::Traversal => "path escapes the base directory",
            ResolveError::InvalidChar => "path contains an invalid character",
        }
    }
}

pub open spec fn resolve_error_message(e: ResolveError) -> Seq<char> {
    match e {
        ResolveError::Absolute => "path is absolute; only paths relative to the base directory are allowed"@,
        ResolveError::WindowsPrefix => "path uses a Windows-specific prefix that is not allowed"@,
        ResolveError::Traversal => "path escapes the base directory"@,
        ResolveError::InvalidChar => "path contains an invalid character"@,
    }
}

/// Reads files on behalf of directive handlers.
pub trait ReadFile {
    /// Whether `read_file` answers as `contents_of` says. A reader
    /// implemented outside the verified library makes no such promise,
    /// which is the default.
    open spec fn reads_by_spec(&self) -> bool {
        false
    }

    /// The contents of the file at `path` (`None`: the read fails), for a
    /// reader that `reads_by_spec`; by default none.
    open spec fn contents_of(&self, path: Seq<char>) -> Option<Seq<char>> {
        None
    }

    /// The contents of the file at `path`.
    fn read_file(&self, path: &str) -> (r: std::io::Result<String>)
        ensures
            self.reads_by_spec() ==> match r {
                Ok(t) => self.contents_of(path@) == Some(t@),
                Err(_) => self.contents_of(path@) is None,
            },
    ;
}

/// `std::io::Error::new(ErrorKind::Unsupported, msg)`.
#[verifier::external_body]
fn unsupported_error(msg: &str) -> std::io::Error {
    std::io::Error::new(std::io::ErrorKind::Unsupported, msg.to_owned())
}

/// The reader used when none is configured: it reads nothing.
pub struct NoReader;

impl ReadFile for NoReader {
    open spec fn reads_by_spec(&self) -> bool {
        true
    }

    /// Always an error: there is nothing to read with.
    fn read_file(&self, path: &str) -> (r: std::io::Result<String>)
        ensures
            r is Err,
    {
        Err(unsupported_error("no file reader is configured"))
    }
}

/// Context handed to directive handlers.
pub struct DirectiveContext<'a> {
    source_path: Option<&'a str>,
    base_dir: &'a str,
    line: usize,
    read_file: &'a dyn ReadFile,
}

/// No character below U+0020.
pub open spec fn no_controls(s: Seq<char>) -> bool {
    forall|i: int| 0 <= i < s.len() ==> (#[trigger] s[i] as u32) >= 0x20
}

pub open spec fn is_ascii_alpha(c: char) -> bool {
    ('a' <= c && c <= 'z') || ('A' <= c && c <= 'Z')
}

pub open spec fn begins_with(s: Seq<char>, p: Seq<char>) -> bool {
    p.len() <= s.len() && s.subrange(0, p.len() as int) == p
}

/// `s` with every backslash turned into a slash.
pub open spec fn slashes(s: Seq<char>) -> Seq<char> {
    s.map_values(|c: char| if c == '\x5c' {
        '/'
    } else {
        c
    })
}

/// The pieces of `s` from `i` on, split at `/` (empty pieces included).
pub open spec fn pieces_from(s: Seq<char>, i: int) -> Seq<Seq<char>>
    decreases s.len() - i,
{
    if i < 0 || i > s.len() {
        Seq::empty()
    } else {
        let e = first_where(s, i, |c: char| c == '/');
        proof {
            lemma_first_where(s, i, |c: char| c == '/');
        }
        if e >= s.len() {
            seq![s.subrange(i, s.len() as int)]
        } else {
            seq![s.subrange(i, e)] + pieces_from(s, e + 1)
        }
    }
}

/// The directory stack after the first `k` pieces: empty pieces and `.` are
/// skipped, `..` pops (`None` when nothing is left to pop), anything else is
/// pushed.
pub open spec fn walk(pieces: Seq<Seq<char>>, k: int) -> Option<Seq<Seq<char>>>
    decreases k,
{
    if k <= 0 {
        Some(Seq::empty())
    } else {
        match walk(pieces, k - 1) {
            None => None,
            Some(st) => {
                let p = pieces[k - 1];
                if p.len() == 0 || p == seq!['.'] {
                    Some(st)
                } else if p == seq!['.', '.'] {
                    if st.len() == 0 {
                        None
                    } else {
                        Some(st.drop_last())
                    }
                } else {
                    Some(st.push(p))
                }
            },
        }
    }
}

/// `base` with one relative segment appended, as `PathBuf::push` does.
pub open spec fn join_one(base: Seq<char>, seg: Seq<char>) -> Seq<char> {
    if base.len() == 0 {
        seg
    } else if base.last() == '/' {
        base + seg
    } else {
        base + seq!['/'] + seg
    }
}

/// `base` with the first `k` segments appended.
pub open spec fn join_all(base: Seq<char>, segs: Seq<Seq<char>>, k: int) -> Seq<char>
    decreases k,
{
    if k <= 0 {
        base
    } else {
        join_one(join_all(base, segs, k - 1), segs[k - 1])
    }
}

/// Where `relative` resolves to under `base`, or why it is refused. Control
/// characters are refused; so are Windows verbatim and device prefixes
/// (`\\?\`, `\\.\`), UNC paths, a leading `/` or `\` and a drive letter
/// (absolute when followed by a separator, a Windows prefix otherwise).
/// Backslashes then count as separators, and the path is normalized
/// lexically without ever rising above the base directory.
pub open spec fn resolve_spec(base: Seq<char>, relative: Seq<char>) -> Result<Seq<char>, ResolveError> {
    let r = relative;
    if !no_controls(r) {
        Err(ResolveError::InvalidChar)
    } else if prefix_refusal_spec(r) is Some {
        Err(prefix_refusal_spec(r)->0)
    } else {
        let pieces = pieces_from(slashes(r), 0);
        match walk(pieces, pieces.len() as int) {
            None => Err(ResolveError::Traversal),
            Some(st) => Ok(join_all(base, st, st.len() as int)),
        }
    }
}

/// The refusal a path's prefix earns, once it has no control characters.
pub open spec fn prefix_refusal_spec(r: Seq<char>) -> Option<ResolveError> {
    if begins_with(r, seq!['\x5c', '\x5c', '?', '\x5c']) || begins_with(r, seq!['\x5c', '\x5c', '.', '\x5c']) {
        Some(ResolveError::WindowsPrefix)
    } else if begins_with(r, seq!['\x5c', '\x5c']) {
        Some(ResolveError::Absolute)
    } else if r.len() > 0 && (r[0] == '/' || r[0] == '\x5c') {
        Some(ResolveError::Absolute)
    } else if r.len() >= 2 && is_ascii_alpha(r[0]) && r[1] == ':' {
        if r.len() > 2 && (r[2] == '/' || r[2] == '\x5c') {
            Some(ResolveError::Absolute)
        } else {
            Some(ResolveError::WindowsPrefix)
        }
    } else {
        None
    }
}

proof fn lemma_begins4(v: Seq<char>, a: char, b: char, c: char, d: char)
    requires
        v.len() >= 4,
    ensures
        begins_with(v, seq![a, b, c, d]) <==> (v[0] == a && v[1] == b && v[2] == c && v[3] == d),
{
    if v[0] == a && v[1] == b && v[2] == c && v[3] == d {
        assert(v.subrange(0, 4) =~= seq![a, b, c, d]);
    }
    if begins_with(v, seq![a, b, c, d]) {
        assert(v.subrange(0, 4)[0] == v[0]);
        assert(v.subrange(0, 4)[1] == v[1]);
        assert(v.subrange(0, 4)[2] == v[2]);
        assert(v.subrange(0, 4)[3] == v[3]);
    }
}

proof fn lemma_begins2(v: Seq<char>, a: char, b: char)
    requires
        v.len() >= 2,
    ensures
        begins_with(v, seq![a, b]) <==> (v[0] == a && v[1] == b),
{
    if v[0] == a && v[1] == b {
        assert(v.subrange(0, 2) =~= seq![a, b]);
    }
    if begins_with(v, seq![a, b]) {
        assert(v.subrange(0, 2)[0] == v[0]);
        assert(v.subrange(0, 2)[1] == v[1]);
    }
}

fn prefix_refusal(v: &[char]) -> (r: Option<ResolveError>)
    ensures
        r == prefix_refusal_spec(v@),
{
    let n = v.len();
    let bs = '\x5c';
    proof {
        if n >= 4 {
            lemma_begins4(v@, bs, bs, '?', bs);
            lemma_begins4(v@, bs, bs, '.', bs);
        }
        if n >= 2 {
            lemma_begins2(v@, bs, bs);
        }
    }
    if n >= 4 && v[0] == bs && v[1] == bs && (v[2] == '?' || v[2] == '.') && v[3] == bs {
        return Some(ResolveError::WindowsPrefix);
    }
    if n >= 2 && v[0] == bs && v[1] == bs {
        return Some(ResolveError::Absolute);
    }
    if n > 0 && (v[0] == '/' || v[0] == bs) {
        return Some(ResolveError::Absolute);
    }
    if n >= 2 && (('a' <= v[0] && v[0] <= 'z') || ('A' <= v[0] && v[0] <= 'Z')) && v[1] == ':' {
        if n > 2 && (v[2] == '/' || v[2] == bs) {
            return Some(ResolveError::Absolute);
        }
        return Some(ResolveError::WindowsPrefix);
    }
    None
}

impl<'a> DirectiveContext<'a> {
    pub closed spec fn base_view(&self) -> Seq<char> {
        self.base_dir@
    }

    pub closed spec fn line_view(&self) -> usize {
        self.line
    }

    pub closed spec fn source_view(&self) -> Option<Seq<char>> {
        match self.source_path {
            Some(s) => Some(s@),
            None => None,
        }
    }

    /// A context for a directive on `line` of the file at `source_path`,
    /// resolving paths under `base_dir` and reading files with `read_file`.
    pub fn new(source_path: Option<&'a str>, base_dir: &'a str, line: usize, read_file: &'a dyn ReadFile) -> (r:
        Self)
        ensures
            r.base_view() == base_dir@,
            r.line_view() == line,
            r.source_view() == match source_path {
                Some(s) => Some(s@),
                None => None::<Seq<char>>,
            },
    {
        DirectiveContext { source_path, base_dir, line, read_file }
    }

    /// Path of the source file being rendered, if known.
    pub fn source_path(&self) -> (r: Option<&str>)
        ensures
            match r {
                Some(s) => self.source_view() == Some(s@),
                None => self.source_view() is None,
            },
    {
        self.source_path
    }

    /// Base directory for resolving relative paths.
    pub fn base_dir(&self) -> (r: &str)
        ensures
            r@ == self.base_view(),
    {
        self.base_dir
    }

    /// Line number of the directive in the source.
    pub fn line(&self) -> (r: usize)
        ensures
            r == self.line_view(),
    {
        self.line
    }

    /// Whether the configured reader answers by its specification.
    pub closed spec fn reader_by_spec(&self) -> bool {
        self.read_file.reads_by_spec()
    }

    /// What the configured reader answers for `path`, when it answers by its
    /// specification.
    pub closed spec fn reader_contents(&self, path: Seq<char>) -> Option<Seq<char>> {
        self.read_file.contents_of(path)
    }

    /// Read a file through the configured reader, asked about `path` as
    /// given (no check against the base directory), its answer passed back.
    pub fn read(&self, path: &str) -> (r: std::io::Result<String>)
        ensures
            self.reader_by_spec() ==> match r {
                Ok(t) => self.reader_contents(path@) == Some(t@),
                Err(_) => self.reader_contents(path@) is None,
            },
    {
        self.read_file.read_file(path)
    }

    /// Resolve `relative` against the base directory, refusing any path that
    /// could reach outside it.
    pub fn resolve_path(&self, relative: &str) -> (r: Result<String, ResolveError>)
        ensures
            match (r, resolve_spec(self.base_view(), relative@)) {
                (Ok(p), Ok(q)) => p@ == q,
                (Err(e), Err(f)) => e == f,
                _ => false,
            },
    {
        let v = chars_of(relative);
        let n = v.len();
        let mut i: usize = 0;
        while i < n
            invariant
                n == v@.len(),
                v@ == relative@,
                i <= n,
                forall|k: int| 0 <= k < i ==> (#[trigger] v@[k] as u32) >= 0x20,
            decreases n - i,
        {
            if (v[i] as u32) < 0x20 {
                assert(!no_controls(v@));
                return Err(ResolveError::InvalidChar);
            }
            i = i + 1;
        }
        assert(no_controls(v@));
        match prefix_refusal(v.as_slice()) {
            Some(e) => {
                return Err(e);
            },
            None => {},
        }
        // Backslashes are separators from here on.
        let mut norm: Vec<char> = Vec::new();
        let mut k: usize = 0;
        while k < n
            invariant
                n == v@.len(),
                k <= n,
                norm@ == slashes(v@.take(k as int)),
            decreases n - k,
        {
            if v[k] == '\x5c' {
                norm.push('/');
            } else {
                norm.push(v[k]);
            }
            assert(slashes(v@.take(k + 1)) =~= slashes(v@.take(k as int)).push(
                if v@[k as int] == '\x5c' {
                    '/'
                } else {
                    v@[k as int]
                },
            ));
            k = k + 1;
        }
        assert(v@.take(n as int) =~= v@);
        let ghost pieces = pieces_from(norm@, 0);
        let mut stack: Vec<Vec<char>> = Vec::new();
        let mut start: usize = 0;
        let ghost mut done: Seq<Seq<char>> = Seq::empty();
        loop
            invariant_except_break
                done + pieces_from(norm@, start as int) == pieces,
            invariant
                start <= norm@.len(),
                norm@ == slashes(v@),
                v@ == relative@,
                no_controls(v@),
                prefix_refusal_spec(v@) is None,
                pieces == pieces_from(norm@, 0),
                walk(done, done.len() as int) == Some(stack@.map_values(|s: Vec<char>| s@)),
            ensures
                done == pieces,
            decreases norm@.len() - start,
        {
            let e = crate::directive::args::find_same(norm.as_slice(), start, '/');
            proof {
                lemma_first_where(norm@, start as int, |c: char| c == '/');
            }
            let piece = sub_vec(norm.as_slice(), start, e);
            let ghost before = stack@.map_values(|s: Vec<char>| s@);
            let is_dot = piece.len() == 1 && piece[0] == '.';
            let is_dotdot = piece.len() == 2 && piece[0] == '.' && piece[1] == '.';
            assert(is_dot == (piece@ == seq!['.'])) by {
                if piece@ == seq!['.'] {
                    assert(piece@[0] == '.');
                }
                if is_dot {
                    assert(piece@ =~= seq!['.']);
                }
            }
            assert(is_dotdot == (piece@ == seq!['.', '.'])) by {
                if piece@ == seq!['.', '.'] {
                    assert(piece@[0] == '.' && piece@[1] == '.');
                }
                if is_dotdot {
                    assert(piece@ =~= seq!['.', '.']);
                }
            }
            let ghost d2 = done.push(piece@);
            let ghost rest_pieces = if e >= norm@.len() {
                Seq::<Seq<char>>::empty()
            } else {
                pieces_from(norm@, e + 1)
            };
            assert(pieces_from(norm@, start as int) =~= seq![piece@] + rest_pieces);
            assert(pieces =~= d2 + rest_pieces);
            proof {
                lemma_walk_prefix(d2, done, done.len() as int);
                assert forall|j: int| 0 <= j < d2.len() implies d2[j] == pieces[j] by {
                    assert(pieces[j] == (d2 + rest_pieces)[j]);
                }
            }
            if piece.len() == 0 || is_dot {
            } else if is_dotdot {
                if stack.len() == 0 {
                    proof {
                        lemma_walk_none_stays(pieces, d2);
                    }
                    return Err(ResolveError::Traversal);
                }
                stack.pop();
                assert(stack@.map_values(|s: Vec<char>| s@) =~= before.drop_last());
            } else {
                stack.push(piece);
                assert(stack@.map_values(|s: Vec<char>| s@) =~= before.push(piece@));
            }
            proof {
                done = d2;
            }
            if e >= norm.len() {
                assert(done =~= pieces);
                break;
            }
            assert(done + pieces_from(norm@, e + 1) =~= pieces);
            start = e + 1;
        }
        let mut out: Vec<char> = chars_of(self.base_dir);
        let ghost st = stack@.map_values(|s: Vec<char>| s@);
        let mut k: usize = 0;
        while k < stack.len()
            invariant
                k <= stack@.len(),
                st == stack@.map_values(|s: Vec<char>| s@),
                out@ == join_all(self.base_view(), st, k as int),
            decreases stack.len() - k,
        {
            if out.len() == 0 {
            } else if out[out.len() - 1] == '/' {
            } else {
                out.push('/');
            }
            let seg = &stack[k];
            let mut j: usize = 0;
            let ghost b = out@;
            while j < seg.len()
                invariant
                    j <= seg@.len(),
                    out@ == b + seg@.take(j as int),
                decreases seg.len() - j,
            {
                out.push(seg[j]);
                assert(seg@.take(j + 1) =~= seg@.take(j as int).push(seg@[j as int]));
                j = j + 1;
            }
            assert(seg@.take(seg@.len() as int) =~= seg@);
            assert(out@ =~= join_one(join_all(self.base_view(), st, k as int), st[k as int]));
            k = k + 1;
        }
        Ok(string_of(out.as_slice()))
    }
}

/// Once the walk has failed, it stays failed.
proof fn lemma_walk_none_stays(pieces: Seq<Seq<char>>, d: Seq<Seq<char>>)
    requires
        walk(d, d.len() as int) is None,
        d.len() <= pieces.len(),
        forall|i: int| 0 <= i < d.len() ==> d[i] == pieces[i],
    ensures
        walk(pieces, pieces.len() as int) is None,
{
    lemma_walk_prefix(pieces, d, d.len() as int);
    lemma_walk_none_mono(pieces, d.len() as int, pieces.len() as int);
}

/// The walk over `k` pieces reads only those pieces.
proof fn lemma_walk_prefix(a: Seq<Seq<char>>, b: Seq<Seq<char>>, k: int)
    requires
        0 <= k <= a.len(),
        k <= b.len(),
        forall|i: int| 0 <= i < k ==> a[i] == b[i],
    ensures
        walk(a, k) == walk(b, k),
    decreases k,
{
    if k > 0 {
        lemma_walk_prefix(a, b, k - 1);
    }
}

proof fn lemma_walk_none_mono(a: Seq<Seq<char>>, k: int, m: int)
    requires
        0 <= k <= m,
        walk(a, k) is None,
    ensures
        walk(a, m) is None,
    decreases m - k,
{
    if k < m {
        lemma_walk_none_mono(a, k, m - 1);
    }
}


/// A segment that names a directory entry: not empty, not `.` or `..`, and
/// without a separator.
pub open spec fn plain_segment(p: Seq<char>) -> bool {
    &&& p.len() > 0
    &&& p != seq!['.']
    &&& p != seq!['.', '.']
    &&& forall|i: int| 0 <= i < p.len() ==> p[i] != '/'
}

/// No piece of a split holds a separator.
proof fn lemma_pieces_have_no_slash(s: Seq<char>, i: int)
    ensures
        forall|k: int, j: int|
            0 <= k < pieces_from(s, i).len() && 0 <= j < pieces_from(s, i)[k].len() ==> #[trigger] pieces_from(
                s,
                i,
            )[k][j] != '/',
    decreases s.len() - i,
{
    if 0 <= i <= s.len() {
        let e = first_where(s, i, |c: char| c == '/');
        lemma_first_where(s, i, |c: char| c == '/');
        if e < s.len() {
            lemma_pieces_have_no_slash(s, e + 1);
            let ps = pieces_from(s, i);
            assert(ps == seq![s.subrange(i, e)] + pieces_from(s, e + 1));
            assert forall|k: int, j: int| 0 <= k < ps.len() && 0 <= j < ps[k].len() implies #[trigger] ps[k][j]
                != '/' by {
                if k == 0 {
                    assert(ps[0] == s.subrange(i, e));
                    assert(s[i + j] != '/');
                } else {
                    assert(ps[k] == pieces_from(s, e + 1)[k - 1]);
                }
            }
        } else {
            let ps = pieces_from(s, i);
            assert forall|k: int, j: int| 0 <= k < ps.len() && 0 <= j < ps[k].len() implies #[trigger] ps[k][j]
                != '/' by {
                assert(ps[0] == s.subrange(i, s.len() as int));
                assert(s[i + j] != '/');
            }
        }
    }
}

/// Every segment the walk keeps is plain.
proof fn lemma_walk_keeps_plain(pieces: Seq<Seq<char>>, k: int)
    requires
        0 <= k <= pieces.len(),
        forall|m: int, j: int| 0 <= m < pieces.len() && 0 <= j < pieces[m].len() ==> #[trigger] pieces[m][j] != '/',
    ensures
        walk(pieces, k) matches Some(st) ==> forall|m: int| 0 <= m < st.len() ==> plain_segment(#[trigger] st[m]),
    decreases k,
{
    if k > 0 {
        lemma_walk_keeps_plain(pieces, k - 1);
        match walk(pieces, k - 1) {
            None => {},
            Some(st) => {
                let p = pieces[k - 1];
                if p.len() == 0 || p == seq!['.'] {
                } else if p == seq!['.', '.'] {
                    if st.len() > 0 {
                        assert forall|m: int| 0 <= m < st.drop_last().len() implies plain_segment(
                            #[trigger] st.drop_last()[m],
                        ) by {
                            assert(st.drop_last()[m] == st[m]);
                        }
                    }
                } else {
                    assert forall|m: int| 0 <= m < st.push(p).len() implies plain_segment(#[trigger] st.push(p)[m]) by {
                        if m < st.len() {
                            assert(st.push(p)[m] == st[m]);
                        } else {
                            assert(st.push(p)[m] == p);
                            assert forall|j: int| 0 <= j < p.len() implies p[j] != '/' by {
                                assert(pieces[k - 1][j] != '/');
                            }
                        }
                    }
                }
            },
        }
    }
}

/// Appending segments keeps the base as a prefix.
proof fn lemma_join_all_extends(base: Seq<char>, segs: Seq<Seq<char>>, k: int)
    ensures
        begins_with(join_all(base, segs, k), base),
    decreases k,
{
    if k > 0 {
        lemma_join_all_extends(base, segs, k - 1);
        let b = join_all(base, segs, k - 1);
        let j = join_one(b, segs[k - 1]);
        if b.len() == 0 {
            assert(base.len() == 0);
            assert(j.subrange(0, 0) =~= base);
        } else if b.last() == '/' {
            assert(j.subrange(0, base.len() as int) =~= b.subrange(0, base.len() as int));
        } else {
            assert(j.subrange(0, base.len() as int) =~= b.subrange(0, base.len() as int));
        }
    } else {
        assert(base.subrange(0, base.len() as int) =~= base);
    }
}

/// A resolved path never leaves the base directory: it is the base with
/// plain segments appended, none of them empty, `.` or `..`.
pub proof fn lemma_resolved_path_stays_under_base(base: Seq<char>, relative: Seq<char>)
    ensures
        resolve_spec(base, relative) matches Ok(p) ==> begins_with(p, base) && exists|st: Seq<Seq<char>>|
            (forall|m: int| 0 <= m < st.len() ==> plain_segment(#[trigger] st[m])) && p == join_all(
                base,
                st,
                st.len() as int,
            ),
{
    if resolve_spec(base, relative) is Ok {
        let pieces = pieces_from(slashes(relative), 0);
        lemma_pieces_have_no_slash(slashes(relative), 0);
        lemma_walk_keeps_plain(pieces, pieces.len() as int);
        let st = walk(pieces, pieces.len() as int)->0;
        lemma_join_all_extends(base, st, st.len() as int);
    }
}

/// The empty path and `.` resolve to the base directory itself.
pub proof fn lemma_current_dir_is_base(base: Seq<char>)
    ensures
        resolve_spec(base, Seq::empty()) == Ok::<Seq<char>, ResolveError>(base),
        resolve_spec(base, seq!['.']) == Ok::<Seq<char>, ResolveError>(base),
{
    let e = Seq::<char>::empty();
    assert(slashes(e) =~= e);
    assert(first_where(e, 0, |c: char| c == '/') == 0);
    assert(e.subrange(0, 0) =~= e);
    assert(pieces_from(e, 0) =~= seq![e]);
    assert(walk(seq![e], 0) == Some(Seq::<Seq<char>>::empty()));
    assert(walk(seq![e], 1) == Some(Seq::<Seq<char>>::empty()));
    let d = seq!['.'];
    assert(slashes(d) =~= d);
    assert(d.subrange(0, 1) =~= d);
    assert(first_where(d, 1, |c: char| c == '/') == 1);
    assert(first_where(d, 0, |c: char| c == '/') == 1);
    assert(pieces_from(d, 0) =~= seq![d]);
    assert(walk(seq![d], 0) == Some(Seq::<Seq<char>>::empty()));
    assert(walk(seq![d], 1) == Some(Seq::<Seq<char>>::empty()));
}

} // verus!
