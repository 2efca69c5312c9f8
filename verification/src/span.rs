//! Byte spans, the source map, and the span resolver.
//!
//! A span is a pair of byte offsets into the concatenated source text of one
//! compilation session.  The source map records, for every physical or
//! synthetic buffer of that session, where it starts, where it ends, and
//! where its lines begin; the resolver maps each end of a span independently
//! to a (line, column, file) triple, so the two ends of one span may
//! legitimately name different files.

use vstd::prelude::*;

verus! {

/// An extent of the concatenated source text, as a pair of byte offsets.
/// `lo` is the offset of the first byte, `hi` the offset one past the last.
#[derive(Clone, Copy, Debug)]
pub struct ByteSpan {
    pub lo: usize,
    pub hi: usize,
}

impl ByteSpan {
    pub open spec fn wf(self) -> bool {
        self.lo <= self.hi
    }
}

/// One buffer of the session: a physical file (with `path` present) or a
/// synthetic buffer (with `path` absent).  It occupies the global offsets
/// `start ..= end`, and `line_starts` holds the global offset of each line
/// beginning, in increasing order, starting with `start` itself.
#[derive(Debug)]
pub struct SourceFile {
    pub path: Option<String>,
    pub start: usize,
    pub end: usize,
    pub line_starts: Vec<usize>,
}

impl SourceFile {
    pub open spec fn wf(self) -> bool {
        &&& self.line_starts@.len() >= 1
        &&& self.line_starts@[0] == self.start
        &&& forall|j: int, k: int|
            0 <= j < k < self.line_starts@.len() ==> self.line_starts@[j] < self.line_starts@[k]
        &&& forall|j: int| 0 <= j < self.line_starts@.len() ==> self.line_starts@[j] <= self.end
        &&& self.end < usize::MAX
    }

    /// Whether the global byte offset `off` belongs to this buffer.  The end
    /// offset itself is included, so that the exclusive upper end of a span
    /// still resolves inside the buffer it closes.
    pub open spec fn contains(self, off: int) -> bool {
        self.start <= off <= self.end
    }
}

/// The source map of one session: its buffers, in increasing offset order,
/// with disjoint extents and pairwise distinct physical paths.
#[derive(Debug)]
pub struct SourceMap {
    pub files: Vec<SourceFile>,
}

/// A resolved endpoint of a span: a 1-based line, a 1-based column, and the
/// buffer's path, absent for positions that do not map to a concrete
/// on-disk file.  The column is the distance from the line's start in the
/// units of the map's offsets; a front end that wants display columns hands
/// over offsets and line starts already normalized to display units.
#[derive(Clone, Debug)]
pub struct Position {
    pub line: usize,
    pub column: usize,
    pub file: Option<String>,
}

/// The mathematical value of a `Position`.
pub ghost struct SpecPos {
    pub line: int,
    pub column: int,
    pub file: Option<Seq<char>>,
}

impl View for Position {
    type V = SpecPos;

    open spec fn view(&self) -> SpecPos {
        SpecPos {
            line: self.line as int,
            column: self.column as int,
            file: match self.file {
                Some(p) => Some(p@),
                None => None,
            },
        }
    }
}

/// `start` precedes or equals `end` in (line, column) lexicographic order.
pub open spec fn pos_le(start: SpecPos, end: SpecPos) -> bool {
    start.line < end.line || (start.line == end.line && start.column <= end.column)
}

/// The index of the last line start in `ls` that is at or before `off`;
/// 0 when no line start is (unreachable for well-formed lookups).
pub open spec fn line_idx(ls: Seq<usize>, off: int) -> int
    decreases ls.len(),
{
    if ls.len() == 0 {
        0
    } else if ls[ls.len() - 1] <= off {
        ls.len() - 1
    } else {
        line_idx(ls.drop_last(), off)
    }
}

pub proof fn lemma_line_idx_props(ls: Seq<usize>, off: int)
    requires
        ls.len() >= 1,
        ls[0] <= off,
        forall|j: int, k: int| 0 <= j < k < ls.len() ==> ls[j] < ls[k],
    ensures
        0 <= line_idx(ls, off) < ls.len(),
        ls[line_idx(ls, off)] <= off,
        forall|k: int| line_idx(ls, off) < k < ls.len() ==> ls[k] > off,
    decreases ls.len(),
{
    if ls[ls.len() - 1] <= off {
    } else {
        lemma_line_idx_props(ls.drop_last(), off);
        assert(forall|k: int|
            0 <= k < ls.len() - 1 ==> ls.drop_last()[k] == ls[k]);
    }
}

impl SourceMap {
    pub open spec fn wf(self) -> bool {
        &&& forall|i: int| 0 <= i < self.files@.len() ==> (#[trigger] self.files@[i]).wf()
        &&& forall|i: int, j: int|
            0 <= i < j < self.files@.len()
                ==> (#[trigger] self.files@[i]).end < (#[trigger] self.files@[j]).start
        &&& forall|i: int, j: int|
            0 <= i < self.files@.len() && 0 <= j < self.files@.len() && i != j
                && (#[trigger] self.files@[i]).path is Some
                && (#[trigger] self.files@[j]).path is Some
                ==> self.files@[i].path->0@ != self.files@[j].path->0@
    }

    /// Whether some buffer of the map owns the offset.
    pub open spec fn covers(self, off: int) -> bool {
        exists|i: int| 0 <= i < self.files@.len() && (#[trigger] self.files@[i]).contains(off)
    }

    /// The index of the buffer owning `off`; under `wf` and `covers` there is
    /// exactly one.
    pub open spec fn file_idx(self, off: int) -> int {
        choose|i: int| 0 <= i < self.files@.len() && (#[trigger] self.files@[i]).contains(off)
    }

    /// The resolved position of the offset: the owning buffer's path, the
    /// 1-based index of the last line begun at or before the offset, and the
    /// 1-based distance from that line's start.
    pub open spec fn spec_position(self, off: int) -> SpecPos {
        let f = self.files@[self.file_idx(off)];
        let j = line_idx(f.line_starts@, off);
        SpecPos {
            line: j + 1,
            column: off - f.line_starts@[j] + 1,
            file: match f.path {
                Some(p) => Some(p@),
                None => None,
            },
        }
    }

    pub proof fn lemma_file_idx_unique(self, off: int, i: int)
        requires
            self.wf(),
            0 <= i < self.files@.len(),
            self.files@[i].contains(off),
        ensures
            self.file_idx(off) == i,
    {
        let w = self.file_idx(off);
        assert(0 <= w < self.files@.len() && self.files@[w].contains(off));
        if w < i {
            assert(self.files@[w].end < self.files@[i].start);
        } else if i < w {
            assert(self.files@[i].end < self.files@[w].start);
        }
    }
}

/// Decides whether some buffer of the map owns the offset.
pub fn covers_check(map: &SourceMap, off: usize) -> (b: bool)
    ensures
        b == map.covers(off as int),
{
    let n = map.files.len();
    let mut i: usize = 0;
    while i < n
        invariant
            n == map.files@.len(),
            i <= n,
            forall|k: int| 0 <= k < i ==> !(#[trigger] map.files@[k]).contains(off as int),
        decreases n - i,
    {
        let f = &map.files[i];
        if f.start <= off && off <= f.end {
            proof {
                assert(map.files@[i as int].contains(off as int));
            }
            return true;
        }
        i += 1;
    }
    false
}

proof fn lemma_starts_pairwise(ls: Seq<usize>, j: int, k: int)
    requires
        forall|m: int| 1 <= m < ls.len() ==> ls[m - 1] < (#[trigger] ls[m]),
        0 <= j < k < ls.len(),
    ensures
        ls[j] < ls[k],
    decreases k - j,
{
    if j + 1 < k {
        lemma_starts_pairwise(ls, j, k - 1);
    }
}

proof fn lemma_files_pairwise(files: Seq<SourceFile>, i: int, j: int)
    requires
        forall|m: int| 0 <= m < files.len() ==> (#[trigger] files[m]).wf(),
        forall|m: int| 1 <= m < files.len() ==> files[m - 1].end < (#[trigger] files[m]).start,
        0 <= i < j < files.len(),
    ensures
        files[i].end < files[j].start,
    decreases j - i,
{
    if i + 1 < j {
        lemma_files_pairwise(files, i, j - 1);
        assert(files[j - 1].line_starts@[0] == files[j - 1].start);
        assert(files[j - 1].start <= files[j - 1].end);
    }
}

impl SourceFile {
    /// Decides the buffer's own well-formedness.
    pub fn check_wf(&self) -> (b: bool)
        ensures
            b == self.wf(),
    {
        let n = self.line_starts.len();
        if n == 0 {
            return false;
        }
        if self.line_starts[0] != self.start {
            return false;
        }
        if self.end >= usize::MAX {
            return false;
        }
        if self.start > self.end {
            return false;
        }
        let mut m: usize = 1;
        while m < n
            invariant
                n == self.line_starts@.len(),
                1 <= m <= n,
                forall|k: int|
                    1 <= k < m ==> self.line_starts@[k - 1] < (#[trigger] self.line_starts@[k]),
                forall|k: int| 0 <= k < m ==> (#[trigger] self.line_starts@[k]) <= self.end,
                self.line_starts@[0] <= self.end,
            decreases n - m,
        {
            if self.line_starts[m - 1] >= self.line_starts[m] {
                return false;
            }
            if self.line_starts[m] > self.end {
                return false;
            }
            m += 1;
        }
        proof {
            assert forall|j: int, k: int|
                0 <= j < k < self.line_starts@.len() implies self.line_starts@[j]
                < self.line_starts@[k] by {
                lemma_starts_pairwise(self.line_starts@, j, k);
            }
        }
        true
    }
}

impl SourceMap {
    /// Decides whether the physical paths of the buffers are pairwise
    /// distinct.
    fn check_paths(&self) -> (b: bool)
        ensures
            b == (forall|i: int, j: int|
                0 <= i < self.files@.len() && 0 <= j < self.files@.len() && i != j
                    && (#[trigger] self.files@[i]).path is Some
                    && (#[trigger] self.files@[j]).path is Some ==> self.files@[i].path->0@
                    != self.files@[j].path->0@),
    {
        let n = self.files.len();
        let mut a: usize = 0;
        while a < n
            invariant
                n == self.files@.len(),
                a <= n,
                forall|p: int, q: int|
                    0 <= p < a && 0 <= q < n && p != q && (#[trigger] self.files@[p]).path is Some
                        && (#[trigger] self.files@[q]).path is Some ==> self.files@[p].path->0@
                        != self.files@[q].path->0@,
            decreases n - a,
        {
            let mut b_idx: usize = 0;
            while b_idx < n
                invariant
                    n == self.files@.len(),
                    a < n,
                    b_idx <= n,
                    forall|p: int, q: int|
                        0 <= p < a && 0 <= q < n && p != q && (#[trigger] self.files@[p]).path
                            is Some && (#[trigger] self.files@[q]).path is Some
                            ==> self.files@[p].path->0@ != self.files@[q].path->0@,
                    forall|q: int|
                        0 <= q < b_idx && q != a && (#[trigger] self.files@[q]).path is Some
                            && self.files@[a as int].path is Some ==> self.files@[a as int].path
                            ->0@ != self.files@[q].path->0@,
                decreases n - b_idx,
            {
                if b_idx != a {
                    match (&self.files[a].path, &self.files[b_idx].path) {
                        (Some(p), Some(q)) => {
                            if p.eq(q) {
                                return false;
                            }
                        },
                        _ => {},
                    }
                }
                b_idx += 1;
            }
            a += 1;
        }
        true
    }

    /// Decides the map's well-formedness: every buffer well-formed, extents
    /// in order and disjoint, physical paths pairwise distinct.
    pub fn check_wf(&self) -> (b: bool)
        ensures
            b == self.wf(),
    {
        let n = self.files.len();
        let mut i: usize = 0;
        while i < n
            invariant
                n == self.files@.len(),
                i <= n,
                forall|k: int| 0 <= k < i ==> (#[trigger] self.files@[k]).wf(),
            decreases n - i,
        {
            if !self.files[i].check_wf() {
                return false;
            }
            i += 1;
        }
        let mut m: usize = 1;
        while m < n
            invariant
                n == self.files@.len(),
                1 <= m <= n || (n == 0 && m == 1),
                forall|k: int| 0 <= k < n ==> (#[trigger] self.files@[k]).wf(),
                forall|k: int|
                    1 <= k < m ==> self.files@[k - 1].end < (#[trigger] self.files@[k]).start,
            decreases n - m,
        {
            if self.files[m - 1].end >= self.files[m].start {
                proof {
                    assert(!self.wf()) by {
                        assert(self.files@[m - 1].end >= self.files@[m as int].start);
                    }
                }
                return false;
            }
            m += 1;
        }
        if !self.check_paths() {
            return false;
        }
        proof {
            assert forall|p: int, q: int|
                0 <= p < q < self.files@.len() implies (#[trigger] self.files@[p]).end
                < (#[trigger] self.files@[q]).start by {
                lemma_files_pairwise(self.files@, p, q);
            }
        }
        true
    }
}

/// Resolves one global byte offset against the map.
pub fn lookup_pos(map: &SourceMap, off: usize) -> (r: Position)
    requires
        map.wf(),
        map.covers(off as int),
    ensures
        r@ == map.spec_position(off as int),
{
    let ghost w: int = map.file_idx(off as int);
    proof {
        assert(0 <= w < map.files@.len() && map.files@[w].contains(off as int));
    }
    let n = map.files.len();
    let mut i: usize = 0;
    while i < n
        invariant
            map.wf(),
            n == map.files@.len(),
            0 <= w < n,
            map.files@[w].contains(off as int),
            map.file_idx(off as int) == w,
            i <= n,
            forall|k: int| 0 <= k < i ==> !(#[trigger] map.files@[k]).contains(off as int),
        decreases n - i,
    {
        let f = &map.files[i];
        if f.start <= off && off <= f.end {
            proof {
                map.lemma_file_idx_unique(off as int, i as int);
            }
            return position_in_file(f, off);
        }
        i += 1;
    }
    proof {
        assert(!map.files@[w].contains(off as int));
    }
    // Unreachable: `covers` guarantees some buffer owns the offset.
    Position { line: 1, column: 1, file: None }
}

/// Resolves an offset known to lie in `f`.
fn position_in_file(f: &SourceFile, off: usize) -> (r: Position)
    requires
        f.wf(),
        f.contains(off as int),
    ensures
        r.line as int == line_idx(f.line_starts@, off as int) + 1,
        r.column as int == off - f.line_starts@[line_idx(f.line_starts@, off as int)] + 1,
        (match f.path {
            Some(p) => r.file matches Some(q) && q@ == p@,
            None => r.file is None,
        }),
{
    proof {
        lemma_line_idx_props(f.line_starts@, off as int);
    }
    let n = f.line_starts.len();
    let mut j: usize = 0;
    let mut k: usize = 1;
    while k < n
        invariant
            f.wf(),
            f.contains(off as int),
            n == f.line_starts@.len(),
            1 <= k <= n,
            j < k,
            j as int == line_idx(f.line_starts@.take(k as int), off as int),
            f.line_starts@[j as int] <= off,
        decreases n - k,
    {
        proof {
            assert(f.line_starts@.take(k as int + 1).drop_last() =~= f.line_starts@.take(
                k as int,
            ));
        }
        if f.line_starts[k] <= off {
            j = k;
        }
        k += 1;
    }
    proof {
        assert(f.line_starts@.take(n as int) =~= f.line_starts@);
    }
    let ls = f.line_starts[j];
    let line = j + 1;
    let column = off - ls + 1;
    let file = match &f.path {
        Some(p) => Some(p.clone()),
        None => None,
    };
    Position { line, column, file }
}

/// Resolves the two ends of a span independently; the results may name
/// different files when the span crosses a buffer boundary.
pub fn resolve_span(map: &SourceMap, span: ByteSpan) -> (r: (Position, Position))
    requires
        map.wf(),
        span.wf(),
        map.covers(span.lo as int),
        map.covers(span.hi as int),
    ensures
        r.0@ == map.spec_position(span.lo as int),
        r.1@ == map.spec_position(span.hi as int),
{
    (lookup_pos(map, span.lo), lookup_pos(map, span.hi))
}

/// A resolved position of a covered offset has a 1-based line and column.
pub proof fn lemma_spec_position_wf(map: SourceMap, off: int)
    requires
        map.wf(),
        map.covers(off),
    ensures
        map.spec_position(off).line >= 1,
        map.spec_position(off).column >= 1,
{
    let i = map.file_idx(off);
    assert(0 <= i < map.files@.len() && map.files@[i].contains(off));
    let f = map.files@[i];
    lemma_line_idx_props(f.line_starts@, off);
}

/// Resolution is monotone: of two covered offsets in order, if the resolved
/// positions name the same physical file, the positions are in (line, column)
/// lexicographic order.  This is what makes every emitted record's `start`
/// precede or equal its `end` whenever both ends carry a file.
pub proof fn lemma_position_monotone(map: SourceMap, lo: int, hi: int)
    requires
        map.wf(),
        map.covers(lo),
        map.covers(hi),
        lo <= hi,
        map.spec_position(lo).file is Some,
        map.spec_position(hi).file is Some,
        map.spec_position(lo).file == map.spec_position(hi).file,
    ensures
        pos_le(map.spec_position(lo), map.spec_position(hi)),
{
    let i = map.file_idx(lo);
    let j = map.file_idx(hi);
    assert(0 <= i < map.files@.len() && map.files@[i].contains(lo));
    assert(0 <= j < map.files@.len() && map.files@[j].contains(hi));
    if i != j {
        // Distinct buffers with present paths have distinct paths.
        assert(map.files@[i].path is Some);
        assert(map.files@[j].path is Some);
        assert(map.files@[i].path->0@ != map.files@[j].path->0@);
        assert(false);
    }
    let f = map.files@[i];
    let a = line_idx(f.line_starts@, lo);
    let b = line_idx(f.line_starts@, hi);
    lemma_line_idx_props(f.line_starts@, lo);
    lemma_line_idx_props(f.line_starts@, hi);
    if b < a {
        assert(f.line_starts@[a] > hi);
        assert(f.line_starts@[a] <= lo);
        assert(false);
    }
    if a == b {
        assert(lo - f.line_starts@[a] + 1 <= hi - f.line_starts@[b] + 1);
    }
}

} // verus!
