use vstd::prelude::*;

use crate::paths::{comps, copy_components, same_components, ComponentView, PathComponent};
use vstd::string::StringSliceAdditionalSpecFns;

verus! {

/// The offsets at which the lines of the bytes `b[..n]` start: 0, then the offset after each
/// line feed.
pub open spec fn starts_upto(b: Seq<u8>, n: nat) -> Seq<int>
    decreases n,
{
    if n == 0 {
        seq![0int]
    } else if b[n - 1] == 10u8 {
        starts_upto(b, (n - 1) as nat).push(n as int)
    } else {
        starts_upto(b, (n - 1) as nat)
    }
}

/// The line table of a text: where each line starts, and its length when it does not end with
/// a line feed.
pub open spec fn line_table(b: Seq<u8>) -> Seq<int> {
    let s = starts_upto(b, b.len());
    if b.len() > 0 && b.last() != 10u8 {
        s.push(b.len() as int)
    } else {
        s
    }
}

/// A line table: starts at 0 and strictly increases.
pub open spec fn table_wf(t: Seq<int>) -> bool {
    &&& t.len() > 0
    &&& t[0] == 0
    &&& forall|i: int, j: int| 0 <= i < j < t.len() ==> t[i] < t[j]
}

pub proof fn lemma_starts_upto(b: Seq<u8>, n: nat)
    requires
        n <= b.len(),
    ensures
        table_wf(starts_upto(b, n)),
        starts_upto(b, n).last() <= n,
        n > 0 && b[n - 1] != 10u8 ==> starts_upto(b, n).last() < n,
        forall|i: int| 0 <= i < starts_upto(b, n).len() ==> 0 <= #[trigger] starts_upto(b, n)[i] <= n,
    decreases n,
{
    if n > 0 {
        lemma_starts_upto(b, (n - 1) as nat);
    }
}

pub proof fn lemma_line_table(b: Seq<u8>)
    ensures
        table_wf(line_table(b)),
        forall|i: int| 0 <= i < line_table(b).len() ==> 0 <= #[trigger] line_table(b)[i] <= b.len(),
{
    lemma_starts_upto(b, b.len());
}

/// A position as a line and a column, in a file.
#[derive(Clone, Debug, PartialEq, Eq)]
pub struct FileRange {
    pub path: Vec<PathComponent>,
    /// Start.
    pub line_start: u32,
    pub col_start: u32,
    /// End.
    pub line_end: u32,
    pub col_end: u32,
}

/// The line tables of files, by path: two paths name the same file when they have the same
/// components.
pub struct FileLineMapping {
    m: Vec<(Vec<PathComponent>, Vec<u32>)>,
}

/// The table of `path` among `entries`, if it is there.
pub open spec fn lookup(entries: Seq<(Seq<ComponentView>, Seq<int>)>, path: Seq<ComponentView>) -> Option<Seq<int>> {
    if exists|i: int| 0 <= i < entries.len() && (#[trigger] entries[i]).0 == path {
        let i = choose|i: int| 0 <= i < entries.len() && (#[trigger] entries[i]).0 == path;
        Some(entries[i].1)
    } else {
        None
    }
}

/// The line of a table that holds the offset `x`: the last line that starts at or before it.
pub open spec fn line_of(t: Seq<int>, x: int) -> int {
    choose|k: int| 0 <= k < t.len() - 1 && #[trigger] t[k] <= x < t[k + 1]
}

/// What `translate` gives for the table `t`, or `None` when the end is at or after the end of
/// the table.
pub open spec fn spec_translate(t: Seq<int>, start: int, end: int) -> Option<(int, int, int, int)> {
    let e = if end < start {
        start
    } else {
        end
    };
    if t.last() <= e {
        None
    } else {
        let ls = line_of(t, start);
        let le = line_of(t, e);
        Some((ls, start - t[ls], le, e - t[le]))
    }
}

impl Default for FileLineMapping {
    fn default() -> (r: FileLineMapping)
        ensures
            r.wf(),
            forall|p: Seq<ComponentView>| r.table_of(p) is None,
    {
        FileLineMapping::new()
    }
}

impl FileLineMapping {
    pub closed spec fn entries(&self) -> Seq<(Seq<ComponentView>, Seq<int>)> {
        Seq::new(
            self.m@.len(),
            |i: int| (comps(self.m@[i].0@), Seq::new(self.m@[i].1@.len(), |j: int| self.m@[i].1@[j] as int)),
        )
    }

    /// Every table is a line table, and no path is there twice.
    pub closed spec fn wf(&self) -> bool {
        &&& forall|i: int| 0 <= i < self.entries().len() ==> table_wf(#[trigger] self.entries()[i].1)
        &&& forall|i: int, j: int|
            0 <= i < j < self.entries().len() ==> self.entries()[i].0 != self.entries()[j].0
    }

    pub open spec fn table_of(&self, path: Seq<ComponentView>) -> Option<Seq<int>> {
        lookup(self.entries(), path)
    }

    pub fn new() -> (r: FileLineMapping)
        ensures
            r.wf(),
            forall|p: Seq<ComponentView>| r.table_of(p) is None,
    {
        let r = FileLineMapping { m: Vec::new() };
        assert(r.entries() =~= Seq::<(Seq<ComponentView>, Seq<int>)>::empty());
        r
    }
}


/// The values of a `u32` table as numbers.
pub open spec fn table_view(v: Seq<u32>) -> Seq<int> {
    Seq::new(v.len(), |j: int| v[j] as int)
}

pub proof fn lemma_table_index_bound(t: Seq<int>, i: int)
    requires
        table_wf(t),
        0 <= i < t.len(),
    ensures
        t[i] >= i,
    decreases i,
{
    if i > 0 {
        lemma_table_index_bound(t, i - 1);
    }
}

pub proof fn lemma_line_of(t: Seq<int>, x: int, k: int)
    requires
        table_wf(t),
        0 <= k < t.len() - 1,
        t[k] <= x < t[k + 1],
    ensures
        line_of(t, x) == k,
{
    let c = line_of(t, x);
    assert(0 <= c < t.len() - 1 && t[c] <= x < t[c + 1]);
    if c < k {
        assert(t[c + 1] <= t[k]);
    } else if c > k {
        assert(t[k + 1] <= t[c]);
    }
}

/// The table of a text's lines: the offset 0, the offset after each line feed, and the length
/// when the text does not end with a line feed.
fn build_table(content: &str) -> (v: Vec<u32>)
    requires
        content.spec_bytes().len() <= u32::MAX,
    ensures
        table_view(v@) == line_table(content.spec_bytes()),
{
    let bytes = content.as_bytes();
    let n = bytes.len();
    let ghost b = content.spec_bytes();
    let mut v: Vec<u32> = Vec::new();
    v.push(0);
    let mut index: usize = 0;
    proof {
        assert(table_view(v@) =~= starts_upto(b, 0));
    }
    while index < n
        invariant
            bytes@ == b,
            n == b.len(),
            n <= u32::MAX,
            index <= n,
            table_view(v@) == starts_upto(b, index as nat),
        decreases n - index,
    {
        if bytes[index] == 10u8 {
            v.push((index + 1) as u32);
            proof {
                assert(table_view(v@) =~= starts_upto(b, index as nat).push(index + 1));
            }
        }
        index = index + 1;
    }
    if n > 0 && bytes[n - 1] != 10u8 {
        v.push(n as u32);
        proof {
            assert(table_view(v@) =~= starts_upto(b, n as nat).push(n as int));
        }
    }
    v
}

/// The line of the table `v` that holds the offset `x`, and the column of `x` in it.
fn search(v: &Vec<u32>, x: u32) -> (r: (u32, u32))
    requires
        table_wf(table_view(v@)),
        x < v@.last(),
    ensures
        r.0 == line_of(table_view(v@), x as int),
        (r.0 as int) < v@.len() - 1,
        v@[r.0 as int] <= x < v@[r.0 + 1],
        r.1 == x - v@[r.0 as int],
{
    let ghost t = table_view(v@);
    // the first position whose value is at least `x`
    let mut lo: usize = 0;
    let mut hi: usize = v.len() - 1;
    while lo < hi
        invariant
            t == table_view(v@),
            table_wf(t),
            0 <= lo <= hi < v@.len(),
            x < v@.last(),
            v@[hi as int] >= x,
            forall|j: int| 0 <= j < lo ==> v@[j] < x,
        decreases hi - lo,
    {
        let mid = lo + (hi - lo) / 2;
        if v[mid] < x {
            proof {
                assert forall|j: int| 0 <= j < mid + 1 implies v@[j] < x by {
                    if j < mid {
                        assert(t[j] < t[mid as int]);
                    }
                }
            }
            lo = mid + 1;
        } else {
            hi = mid;
        }
    }
    let mut index = lo;
    if v[index] != x {
        proof {
            assert(t[0] == 0);
            if index == 0 {
                assert(v@[0] == 0);
            }
        }
        index = index - 1;
    }
    proof {
        lemma_table_index_bound(t, index as int);
        if index + 1 < v@.len() {
            assert(t[index as int] <= x < t[index + 1]);
        } else {
            assert(v@[index as int] == x);
            assert(v@.last() == v@[index as int]);
        }
        lemma_line_of(t, x as int, index as int);
    }
    (index as u32, x - v[index])
}

/// The lines and columns of two offsets in the text of the line table `vec`.
#[verifier::rlimit(30)]
fn translate_table(vec: &Vec<u32>, start_index: u32, end_index: u32) -> (r: Option<(u32, u32, u32, u32)>)
    requires
        table_wf(table_view(vec@)),
    ensures
        match spec_translate(table_view(vec@), start_index as int, end_index as int) {
            None => r is None,
            Some((a, b, c, d)) => r matches Some(x) && x.0 == a && x.1 == b && x.2 == c && x.3 == d,
        },
{
    let ghost t = table_view(vec@);
    let end_index = if end_index < start_index {
        start_index
    } else {
        end_index
    };
    let last = vec[vec.len() - 1];
    assert(t.last() == last as int);
    if last <= end_index {
        return None;
    }
    let (line_start, col_start) = search(vec, start_index);
    assert(t[line_start as int] == vec@[line_start as int] as int);
    let ls = line_start as usize;
    let shortcut = ls + 1 < vec.len() && vec[ls + 1] > end_index;
    let (line_end, col_end) = if shortcut {
        proof {
            lemma_line_of(t, end_index as int, ls as int);
        }
        (line_start, end_index - vec[ls])
    } else {
        search(vec, end_index)
    };
    assert(t[line_end as int] == vec@[line_end as int] as int);
    Some((line_start, col_start, line_end, col_end))
}

impl FileLineMapping {
    /// The position of the entry of `filepath`, if there is one.
    fn find_entry(&self, filepath: &Vec<PathComponent>) -> (r: Option<usize>)
        requires
            self.wf(),
        ensures
            match r {
                Some(i) => i < self.m@.len() && self.entries()[i as int].0 == comps(filepath@) && self.table_of(
                    comps(filepath@),
                ) == Some(self.entries()[i as int].1),
                None => self.table_of(comps(filepath@)) is None && forall|j: int|
                    0 <= j < self.entries().len() ==> (#[trigger] self.entries()[j]).0 != comps(filepath@),
            },
    {
        let ghost e = self.entries();
        let mut i: usize = 0;
        while i < self.m.len()
            invariant
                self.wf(),
                e == self.entries(),
                i <= self.m@.len(),
                forall|j: int| 0 <= j < i ==> (#[trigger] e[j]).0 != comps(filepath@),
            decreases self.m.len() - i,
        {
            if same_components(&self.m[i].0, filepath) {
                proof {
                    assert(e[i as int].0 == comps(filepath@));
                    let c = choose|j: int| 0 <= j < e.len() && (#[trigger] e[j]).0 == comps(filepath@);
                    if c != i {
                        if c < i {
                            assert(e[c].0 != e[i as int].0);
                        } else {
                            assert(e[i as int].0 != e[c].0);
                        }
                    }
                }
                return Some(i);
            }
            proof {
                assert(e[i as int].0 == comps(self.m@[i as int].0@));
            }
            i = i + 1;
        }
        None
    }

    /// Records the line table of `content` for `filepath`, in place of the one it had.
    pub fn update(&mut self, filepath: &Vec<PathComponent>, content: &str)
        requires
            old(self).wf(),
            content.spec_bytes().len() <= u32::MAX,
        ensures
            final(self).wf(),
            final(self).table_of(comps(filepath@)) == Some(line_table(content.spec_bytes())),
            forall|p: Seq<ComponentView>| p != comps(filepath@) ==> final(self).table_of(p) == old(self).table_of(p),
    {
        let v = build_table(content);
        proof {
            lemma_line_table(content.spec_bytes());
        }
        let ghost old_entries = self.entries();
        let path = copy_components(filepath);
        match self.find_entry(filepath) {
            Some(i) => {
                self.m.set(i, (path, v));
                proof {
                    let e = self.entries();
                    assert(e.len() == old_entries.len());
                    assert forall|j: int| 0 <= j < e.len() && j != i implies e[j] == old_entries[j] by {}
                    assert(e[i as int].0 == comps(filepath@));
                    assert(e[i as int].1 =~= table_view(v@));
                    assert forall|j: int| 0 <= j < e.len() && j != i implies (#[trigger] e[j]).0 != comps(filepath@) by {
                        if j < i {
                            assert(old_entries[j].0 != old_entries[i as int].0);
                        } else {
                            assert(old_entries[i as int].0 != old_entries[j].0);
                        }
                    }
                    assert(lookup(e, comps(filepath@)) == Some(e[i as int].1)) by {
                        let c = choose|j: int| 0 <= j < e.len() && (#[trigger] e[j]).0 == comps(filepath@);
                        assert(e[i as int].0 == comps(filepath@));
                    }
                    assert forall|p: Seq<ComponentView>| p != comps(filepath@) implies #[trigger] lookup(e, p) == lookup(
                        old_entries,
                        p,
                    ) by {
                        if exists|j: int| 0 <= j < e.len() && (#[trigger] e[j]).0 == p {
                            let j = choose|j: int| 0 <= j < e.len() && (#[trigger] e[j]).0 == p;
                            assert(old_entries[j].0 == p);
                        }
                        if exists|j: int| 0 <= j < old_entries.len() && (#[trigger] old_entries[j]).0 == p {
                            let j = choose|j: int|
                                0 <= j < old_entries.len() && (#[trigger] old_entries[j]).0 == p;
                            assert(e[j].0 == p);
                        }
                    }
                }
            },
            None => {
                self.m.push((path, v));
                proof {
                    let e = self.entries();
                    assert(e.len() == old_entries.len() + 1);
                    assert forall|j: int| 0 <= j < old_entries.len() implies e[j] == old_entries[j] by {}
                    assert(e[old_entries.len() as int].0 == comps(filepath@));
                    assert(e[old_entries.len() as int].1 =~= table_view(v@));
                    assert(lookup(e, comps(filepath@)) == Some(e[old_entries.len() as int].1)) by {
                        let c = choose|j: int| 0 <= j < e.len() && (#[trigger] e[j]).0 == comps(filepath@);
                        assert(e[old_entries.len() as int].0 == comps(filepath@));
                        if c < old_entries.len() {
                            assert(old_entries[c].0 != comps(filepath@));
                        }
                    }
                    assert forall|p: Seq<ComponentView>| p != comps(filepath@) implies #[trigger] lookup(e, p) == lookup(
                        old_entries,
                        p,
                    ) by {
                        if exists|j: int| 0 <= j < e.len() && (#[trigger] e[j]).0 == p {
                            let j = choose|j: int| 0 <= j < e.len() && (#[trigger] e[j]).0 == p;
                            assert(old_entries[j].0 == p);
                        }
                        if exists|j: int| 0 <= j < old_entries.len() && (#[trigger] old_entries[j]).0 == p {
                            let j = choose|j: int|
                                0 <= j < old_entries.len() && (#[trigger] old_entries[j]).0 == p;
                            assert(e[j].0 == p);
                        }
                    }
                }
            },
        }
    }

    /// The lines and columns of the offsets `start_index` and `end_index` (taken as
    /// `start_index` when it is before it) in the file `filepath`; `None` when the file has no
    /// table or the end is not before its end.
    pub fn translate(&self, filepath: &Vec<PathComponent>, start_index: u32, end_index: u32) -> (r: Option<FileRange>)
        requires
            self.wf(),
        ensures
            match self.table_of(comps(filepath@)) {
                None => r is None,
                Some(t) => match spec_translate(t, start_index as int, end_index as int) {
                    None => r is None,
                    Some((a, b, c, d)) => r matches Some(fr) && comps(fr.path@) == comps(filepath@) && fr.line_start
                        == a && fr.col_start == b && fr.line_end == c && fr.col_end == d,
                },
            },
    {
        let i = match self.find_entry(filepath) {
            None => {
                return None;
            },
            Some(i) => i,
        };
        let vec = &self.m[i].1;
        proof {
            assert(self.entries()[i as int].1 =~= table_view(vec@));
        }
        let (line_start, col_start, line_end, col_end) = match translate_table(vec, start_index, end_index) {
            None => {
                return None;
            },
            Some(x) => x,
        };
        let path = copy_components(filepath);
        Some(FileRange { path, line_start, col_start, line_end, col_end })
    }
}

/// The path `.`: the one component `CurDir`.
pub open spec fn current_dir() -> Seq<ComponentView> {
    seq![ComponentView::CurDir]
}

/// The path `.`.
fn current_dir_path() -> (r: Vec<PathComponent>)
    ensures
        comps(r@) == current_dir(),
{
    let r = vec![PathComponent::CurDir];
    assert(comps(r@) =~= current_dir());
    r
}

/// The line table of one file, kept under the path `.`.
pub struct FileLineMappingOneFile {
    mapping: FileLineMapping,
}

impl FileLineMappingOneFile {
    /// The table of the file, if one was recorded.
    pub closed spec fn table(&self) -> Option<Seq<int>> {
        self.mapping.table_of(current_dir())
    }

    pub closed spec fn wf(&self) -> bool {
        self.mapping.wf()
    }

    /// Records the line table of `content`, in place of the one there was.
    pub fn update(&mut self, content: &str)
        requires
            old(self).wf(),
            content.spec_bytes().len() <= u32::MAX,
        ensures
            final(self).wf(),
            final(self).table() == Some(line_table(content.spec_bytes())),
    {
        self.mapping.update(&current_dir_path(), content);
    }

    /// The lines and columns of the offsets `start_index` and `end_index` (taken as
    /// `start_index` when it is before it), in the path `.`; `None` when no table was recorded
    /// or the end is not before its end.
    pub fn translate(&self, start_index: u32, end_index: u32) -> (r: Option<FileRange>)
        requires
            self.wf(),
        ensures
            match self.table() {
                None => r is None,
                Some(t) => match spec_translate(t, start_index as int, end_index as int) {
                    None => r is None,
                    Some((a, b, c, d)) => r matches Some(fr) && comps(fr.path@) == current_dir() && fr.line_start == a
                        && fr.col_start == b && fr.line_end == c && fr.col_end == d,
                },
            },
    {
        self.mapping.translate(&current_dir_path(), start_index, end_index)
    }
}

impl Default for FileLineMappingOneFile {
    fn default() -> (r: FileLineMappingOneFile)
        ensures
            r.wf(),
            r.table() is None,
    {
        FileLineMappingOneFile { mapping: FileLineMapping::new() }
    }
}

impl From<FileLineMapping> for FileLineMappingOneFile {
    fn from(value: FileLineMapping) -> (r: FileLineMappingOneFile) {
        FileLineMappingOneFile { mapping: value }
    }
}

impl vstd::std_specs::convert::FromSpecImpl<FileLineMapping> for FileLineMappingOneFile {
    open spec fn obeys_from_spec() -> bool {
        true
    }

    closed spec fn from_spec(v: FileLineMapping) -> FileLineMappingOneFile {
        FileLineMappingOneFile { mapping: v }
    }
}

impl FileLineMappingOneFile {
    /// What a mapping of one file made from `v` holds: the table of `v` under `.`.
    pub proof fn lemma_from_spec(v: FileLineMapping)
        ensures
            <FileLineMappingOneFile as vstd::std_specs::convert::FromSpec<FileLineMapping>>::from_spec(v).table()
                == v.table_of(current_dir()),
            <FileLineMappingOneFile as vstd::std_specs::convert::FromSpec<FileLineMapping>>::from_spec(v).wf()
                == v.wf(),
    {
    }
}

/// Whether the position (path, line, column) `pos` lies in `range`: in its file, not before
/// its start and not after its end.
pub open spec fn position_in_range(pos: (Seq<ComponentView>, u32, u32), range: FileRange) -> bool {
    &&& pos.0 == comps(range.path@)
    &&& !(pos.1 < range.line_start)
    &&& !(pos.1 == range.line_start && pos.2 < range.col_start)
    &&& !(pos.1 > range.line_end)
    &&& !(pos.1 == range.line_end && pos.2 > range.col_end)
}

/// Something with a position in a file.
pub trait GetPosition {
    /// The path, line and column of the position.
    spec fn position(&self) -> (Seq<ComponentView>, u32, u32);

    fn get_position(&self) -> (r: (Vec<PathComponent>, u32, u32))
        ensures
            (comps(r.0@), r.1, r.2) == self.position(),
    ;

    /// Whether the position of `x` lies in `range`.
    fn in_range(x: &Self, range: &FileRange) -> (b: bool)
        ensures
            b == position_in_range(x.position(), *range),
    {
        let (filepath, line, col) = x.get_position();
        if !same_components(&filepath, &range.path) {
            return false;
        }
        if line < range.line_start {
            return false;
        }
        if line == range.line_start && col < range.col_start {
            return false;
        }
        if line > range.line_end {
            return false;
        }
        if line == range.line_end && col > range.col_end {
            return false;
        }
        true
    }
}

/// A position in a file.
pub struct GetPositionStruct {
    pub fpath: Vec<PathComponent>,
    pub line: u32,
    pub col: u32,
}

impl GetPosition for GetPositionStruct {
    open spec fn position(&self) -> (Seq<ComponentView>, u32, u32) {
        (comps(self.fpath@), self.line, self.col)
    }

    fn get_position(&self) -> (r: (Vec<PathComponent>, u32, u32)) {
        (copy_components(&self.fpath), self.line, self.col)
    }
}

proof fn lemma_line_exists(t: Seq<int>, x: int)
    requires
        table_wf(t),
        0 <= x < t.last(),
    ensures
        exists|k: int| 0 <= k < t.len() - 1 && #[trigger] t[k] <= x < t[k + 1],
    decreases t.len(),
{
    if t.len() >= 2 && x < t[t.len() - 2] {
        let u = t.drop_last();
        lemma_line_exists(u, x);
        let k = choose|k: int| 0 <= k < u.len() - 1 && #[trigger] u[k] <= x < u[k + 1];
        assert(t[k] <= x < t[k + 1]);
    } else {
        assert(t[t.len() - 2] <= x < t[t.len() - 1]);
    }
}

/// Translating gives back the offsets: the start of the line found plus the column is the
/// offset, the offset lies before the start of the next line, and the end is on the line of
/// the start or a later one.
pub proof fn law_translate_gives_back_offsets(t: Seq<int>, start: int, end: int)
    requires
        table_wf(t),
        0 <= start,
    ensures
        spec_translate(t, start, end) matches Some((a, b, c, d)) ==> {
            let e = if end < start {
                start
            } else {
                end
            };
            &&& 0 <= a <= c < t.len() - 1
            &&& t[a] + b == start
            &&& start < t[a + 1]
            &&& t[c] + d == e
            &&& e < t[c + 1]
        },
{
    let e = if end < start {
        start
    } else {
        end
    };
    if t.last() > e {
        lemma_line_exists(t, start);
        lemma_line_exists(t, e);
        let a = line_of(t, start);
        let c = line_of(t, e);
        if c < a {
            assert(t[c + 1] <= t[a]);
        }
    }
}

/// The lines of a text start at 0 and right after each line feed, and nowhere else.
pub proof fn law_line_starts_follow_line_feeds(b: Seq<u8>, n: nat)
    requires
        n <= b.len(),
    ensures
        starts_upto(b, n)[0] == 0,
        forall|k: int| 0 < k < starts_upto(b, n).len() ==> b[#[trigger] starts_upto(b, n)[k] - 1] == 10u8,
        forall|i: int| 0 <= i < n && b[i] == 10u8 ==> starts_upto(b, n).contains(i + 1),
    decreases n,
{
    lemma_starts_upto(b, n);
    if n > 0 {
        law_line_starts_follow_line_feeds(b, (n - 1) as nat);
        let t = starts_upto(b, (n - 1) as nat);
        lemma_starts_upto(b, (n - 1) as nat);
        if b[n - 1] == 10u8 {
            assert(starts_upto(b, n) == t.push(n as int));
            assert(starts_upto(b, n)[t.len() as int] == n);
            assert forall|i: int| 0 <= i < n && b[i] == 10u8 implies starts_upto(b, n).contains(i + 1) by {
                if i < n - 1 {
                    let j = choose|j: int| 0 <= j < t.len() && t[j] == i + 1;
                    assert(starts_upto(b, n)[j] == i + 1);
                }
            }
        }
    }
}

} // verus!
