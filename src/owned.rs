//! An owned, borrow-free model of a diff: patches of hunks, each hunk a
//! removed and an added block of lines at absolute 1-based positions.
use vstd::prelude::*;

verus! {

/// The kind of change a patch makes to its file.
#[derive(Clone, Copy, Debug, PartialEq, Eq, Structural)]
pub enum Status {
    Added,
    Deleted,
    Modified,
    Renamed,
    Copied,
    Typechange,
    Unmodified,
    Ignored,
    Untracked,
    Unreadable,
    Conflicted,
}

/// A contiguous run of lines of one side of a diff. The block covers lines
/// `[start, start + lines.len())`; an empty block sits before line `start`.
/// A start is signed: once a hunk is moved back past the hunks of another
/// patch, the start of its added side counts from the other staged hunks
/// above it and may fall to zero or below.
#[derive(Debug)]
pub struct Block {
    pub start: isize,
    pub lines: Vec<Vec<u8>>,
}

/// The mathematical value of a [`Block`].
pub ghost struct BlockView {
    pub start: int,
    pub lines: Seq<Seq<u8>>,
}

impl View for Block {
    type V = BlockView;

    open spec fn view(&self) -> BlockView {
        BlockView { start: self.start as int, lines: self.lines.deep_view() }
    }
}

/// One edit: the lines it removes from the old side and those it adds on
/// the new side.
#[derive(Debug)]
pub struct Hunk {
    pub removed: Block,
    pub added: Block,
}

/// The mathematical value of a [`Hunk`].
pub ghost struct HunkView {
    pub removed: BlockView,
    pub added: BlockView,
}

impl View for Hunk {
    type V = HunkView;

    open spec fn view(&self) -> HunkView {
        HunkView { removed: self.removed@, added: self.added@ }
    }
}

/// The changes of one file.
#[derive(Debug)]
pub struct Patch {
    pub old_path: Vec<u8>,
    pub new_path: Vec<u8>,
    pub status: Status,
    pub hunks: Vec<Hunk>,
}

/// The mathematical value of a [`Patch`].
pub ghost struct PatchView {
    pub old_path: Seq<u8>,
    pub new_path: Seq<u8>,
    pub status: Status,
    pub hunks: Seq<HunkView>,
}

impl View for Patch {
    type V = PatchView;

    open spec fn view(&self) -> PatchView {
        PatchView {
            old_path: self.old_path@,
            new_path: self.new_path@,
            status: self.status,
            hunks: self.hunks@.map_values(|h: Hunk| h@),
        }
    }
}

/// The changes between two trees, one patch per changed file.
#[derive(Debug)]
pub struct Diff {
    pub patches: Vec<Patch>,
}

impl View for Diff {
    type V = Seq<PatchView>;

    open spec fn view(&self) -> Seq<PatchView> {
        self.patches@.map_values(|p: Patch| p@)
    }
}

/// One line of a textual hunk: its origin marker (`+`, `-`, a space for
/// context, or one of `=`, `>`, `<` for a missing final newline) and its
/// bytes.
#[derive(Debug)]
pub struct DiffLine {
    pub origin: u8,
    pub content: Vec<u8>,
}

/// Why a hunk could not be read.
#[derive(Clone, Copy, Debug, PartialEq, Eq, Structural)]
pub enum ParseError {
    /// A line carries an origin marker that no hunk line has.
    UnknownOrigin(u8),
    /// The lines of one side are not as many as the header declares.
    CountMismatch,
    /// A start position cannot be represented.
    BadPosition,
}

/// The contents of the lines of `lines` whose origin is `origin`, in order.
pub open spec fn side_lines(lines: Seq<DiffLine>, origin: u8) -> Seq<Seq<u8>>
    decreases lines.len(),
{
    if lines.len() == 0 {
        Seq::empty()
    } else if lines.last().origin == origin {
        side_lines(lines.drop_last(), origin).push(lines.last().content@)
    } else {
        side_lines(lines.drop_last(), origin)
    }
}

/// The origin markers a line of a hunk may carry.
pub open spec fn known_origin(o: u8) -> bool {
    o == 43u8 || o == 45u8 || o == 32u8 || o == 61u8 || o == 62u8 || o == 60u8
}

/// The first line position of a side whose header gives `start` and `count`:
/// a header with no lines names the line before the empty block.
pub open spec fn block_start(start: int, count: int) -> int {
    if count == 0 {
        start + 1
    } else {
        start
    }
}

/// The hunk read from a header and its lines, or why it cannot be read.
pub open spec fn parse_spec(
    old_start: int,
    old_lines: int,
    new_start: int,
    new_lines: int,
    lines: Seq<DiffLine>,
) -> Result<HunkView, ParseError> {
    if exists|i: int| 0 <= i < lines.len() && !known_origin(#[trigger] lines[i].origin) {
        Err(
            ParseError::UnknownOrigin(
                lines[choose|i: int|
                    0 <= i < lines.len() && !known_origin(lines[i].origin) && forall|j: int|
                        0 <= j < i ==> known_origin(#[trigger] lines[j].origin)].origin,
            ),
        )
    } else if side_lines(lines, 45u8).len() != old_lines || side_lines(lines, 43u8).len()
        != new_lines {
        Err(ParseError::CountMismatch)
    } else if block_start(old_start, old_lines) > isize::MAX || block_start(new_start, new_lines)
        > isize::MAX || block_start(old_start, old_lines) < 1 || block_start(new_start, new_lines)
        < 1 {
        Err(ParseError::BadPosition)
    } else {
        Ok(
            HunkView {
                removed: BlockView {
                    start: block_start(old_start, old_lines),
                    lines: side_lines(lines, 45u8),
                },
                added: BlockView {
                    start: block_start(new_start, new_lines),
                    lines: side_lines(lines, 43u8),
                },
            },
        )
    }
}

/// The anchors of a hunk: old start, old length, new start, new length.
pub open spec fn anchors_spec(h: HunkView) -> (int, int, int, int) {
    (h.removed.start, h.removed.lines.len() as int, h.added.start, h.added.lines.len() as int)
}

/// The index of the first patch of `d` whose new path is `path`.
pub open spec fn find_new_spec(d: Seq<PatchView>, path: Seq<u8>) -> Option<int> {
    if exists|i: int| 0 <= i < d.len() && d[i].new_path == path {
        Some(choose|i: int| 0 <= i < d.len() && d[i].new_path == path && forall|j: int|
            0 <= j < i ==> d[j].new_path != path)
    } else {
        None
    }
}

/// A copy of a sequence of lines.
pub fn copy_lines(lines: &Vec<Vec<u8>>) -> (r: Vec<Vec<u8>>)
    ensures
        r.deep_view() == lines.deep_view(),
{
    let mut r: Vec<Vec<u8>> = Vec::new();
    let mut i: usize = 0;
    while i < lines.len()
        invariant
            i <= lines.len(),
            r.deep_view() =~= lines.deep_view().take(i as int),
        decreases lines.len() - i,
    {
        let line = vstd::slice::slice_to_vec(lines[i].as_slice());
        let ghost old_r = r.deep_view();
        r.push(line);
        proof {
            assert(line.deep_view() =~= lines@[i as int].deep_view());
            assert(r.deep_view() =~= old_r.push(line.deep_view()));
        }
        i = i + 1;
        assert(r.deep_view() =~= lines.deep_view().take(i as int));
    }
    assert(lines.deep_view().take(i as int) =~= lines.deep_view());
    r
}

impl Hunk {
    /// Reads a hunk from its header `-old_start,old_lines +new_start,new_lines`
    /// and its lines. Context lines and end-of-file markers are dropped.
    pub fn parse(
        old_start: usize,
        old_lines: usize,
        new_start: usize,
        new_lines: usize,
        lines: &Vec<DiffLine>,
    ) -> (r: Result<Hunk, ParseError>)
        ensures
            match parse_spec(
                old_start as int,
                old_lines as int,
                new_start as int,
                new_lines as int,
                lines@,
            ) {
                Ok(v) => r.is_ok() && r.unwrap()@ == v,
                Err(e) => r == Err::<Hunk, ParseError>(e),
            },
    {
        let mut removed: Vec<Vec<u8>> = Vec::new();
        let mut added: Vec<Vec<u8>> = Vec::new();
        let mut i: usize = 0;
        while i < lines.len()
            invariant
                i <= lines@.len(),
                forall|j: int| 0 <= j < i ==> known_origin(#[trigger] lines@[j].origin),
                removed.deep_view() == side_lines(lines@.take(i as int), 45u8),
                added.deep_view() == side_lines(lines@.take(i as int), 43u8),
            decreases lines.len() - i,
        {
            let o = lines[i].origin;
            let ghost pre = lines@.take(i as int);
            assert(lines@.take(i + 1).drop_last() =~= pre);
            if !(o == 43u8 || o == 45u8 || o == 32u8 || o == 61u8 || o == 62u8 || o == 60u8) {
                proof {
                    let k = choose|k: int|
                        0 <= k < lines@.len() && !known_origin(lines@[k].origin) && forall|j: int|
                            0 <= j < k ==> known_origin(#[trigger] lines@[j].origin);
                    assert(k == i);
                }
                return Err(ParseError::UnknownOrigin(o));
            }
            if o == 45u8 {
                let line = vstd::slice::slice_to_vec(lines[i].content.as_slice());
                let ghost before = removed.deep_view();
                removed.push(line);
                assert(line.deep_view() =~= line@);
                assert(removed.deep_view() =~= before.push(line@));
            } else if o == 43u8 {
                let line = vstd::slice::slice_to_vec(lines[i].content.as_slice());
                let ghost before = added.deep_view();
                added.push(line);
                assert(line.deep_view() =~= line@);
                assert(added.deep_view() =~= before.push(line@));
            }
            i = i + 1;
        }
        assert(lines@.take(i as int) =~= lines@);
        if removed.len() != old_lines || added.len() != new_lines {
            return Err(ParseError::CountMismatch);
        }
        let removed_start = if old_lines == 0 {
            if old_start >= isize::MAX as usize {
                return Err(ParseError::BadPosition);
            }
            old_start + 1
        } else {
            old_start
        };
        let added_start = if new_lines == 0 {
            if new_start >= isize::MAX as usize {
                return Err(ParseError::BadPosition);
            }
            new_start + 1
        } else {
            new_start
        };
        if removed_start < 1 || added_start < 1 || removed_start > isize::MAX as usize
            || added_start > isize::MAX as usize {
            return Err(ParseError::BadPosition);
        }
        Ok(
            Hunk {
                removed: Block { start: removed_start as isize, lines: removed },
                added: Block { start: added_start as isize, lines: added },
            },
        )
    }

    /// The four anchors `(old_start, old_len, new_start, new_len)`.
    pub fn anchors(&self) -> (r: (isize, usize, isize, usize))
        ensures
            (r.0 as int, r.1 as int, r.2 as int, r.3 as int) == anchors_spec(self@),
    {
        (self.removed.start, self.removed.lines.len(), self.added.start, self.added.lines.len())
    }

    /// The same edit placed at other positions.
    pub fn moved_to(&self, removed_start: isize, added_start: isize) -> (r: Hunk)
        ensures
            r@ == (HunkView {
                removed: BlockView { start: removed_start as int, lines: self@.removed.lines },
                added: BlockView { start: added_start as int, lines: self@.added.lines },
            }),
    {
        Hunk {
            removed: Block { start: removed_start, lines: copy_lines(&self.removed.lines) },
            added: Block { start: added_start, lines: copy_lines(&self.added.lines) },
        }
    }
}

impl Diff {
    /// The patch whose new path is `path`, byte for byte.
    pub fn by_new(&self, path: &[u8]) -> (r: Option<&Patch>)
        ensures
            match find_new_spec(self@, path@) {
                Some(i) => r.is_some() && r.unwrap()@ == self@[i],
                None => r.is_none(),
            },
    {
        let mut i: usize = 0;
        while i < self.patches.len()
            invariant
                i <= self.patches.len(),
                forall|j: int| 0 <= j < i ==> self@[j].new_path != path@,
            decreases self.patches.len() - i,
        {
            if bytes_equal(self.patches[i].new_path.as_slice(), path) {
                proof {
                    assert(self@[i as int].new_path == path@);
                    let k = choose|k: int|
                        0 <= k < self@.len() && self@[k].new_path == path@ && forall|j: int|
                            0 <= j < k ==> self@[j].new_path != path@;
                    assert(k == i);
                }
                return Some(&self.patches[i]);
            }
            i = i + 1;
        }
        None
    }
}

/// Whether two byte strings are equal.
pub fn bytes_equal(a: &[u8], b: &[u8]) -> (r: bool)
    ensures
        r == (a@ == b@),
{
    if a.len() != b.len() {
        return false;
    }
    let mut i: usize = 0;
    while i < a.len()
        invariant
            i <= a@.len(),
            a@.len() == b@.len(),
            a@.take(i as int) == b@.take(i as int),
        decreases a.len() - i,
    {
        if a[i] != b[i] {
            return false;
        }
        i = i + 1;
        assert(a@.take(i as int) =~= b@.take(i as int)) by {
            assert(a@.take(i as int) =~= a@.take(i - 1).push(a@[i - 1]));
            assert(b@.take(i as int) =~= b@.take(i - 1).push(b@[i - 1]));
        }
    }
    assert(a@.take(i as int) =~= a@);
    assert(b@.take(i as int) =~= b@);
    true
}

} // verus!
