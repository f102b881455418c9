use git_absorb::absorb::{find_destination, fixup_message, plan, Blocker, Outcome};
use git_absorb::commute::{commute, commute_diff_before};
use git_absorb::owned::{Block, Diff, DiffLine, Hunk, ParseError, Patch, Status};
use git_absorb::patcher::{patch_blob, split_path};

fn lines(origin: u8, texts: &[&str]) -> Vec<DiffLine> {
    texts
        .iter()
        .map(|t| DiffLine { origin, content: t.as_bytes().to_vec() })
        .collect()
}

fn hunk(old: (usize, usize), new: (usize, usize), removed: &[&str], added: &[&str]) -> Hunk {
    let mut ls = lines(b'-', removed);
    ls.extend(lines(b'+', added));
    Hunk::parse(old.0, old.1, new.0, new.1, &ls).expect("well-formed hunk")
}

fn block(start: isize, texts: &[&str]) -> Block {
    Block { start, lines: texts.iter().map(|t| t.as_bytes().to_vec()).collect() }
}

fn patch(old: &str, new: &str, status: Status, hunks: Vec<Hunk>) -> Patch {
    Patch { old_path: old.as_bytes().to_vec(), new_path: new.as_bytes().to_vec(), status, hunks }
}

fn diff(patches: Vec<Patch>) -> Diff {
    Diff { patches }
}

fn file_adding(path: &str, texts: &[&str]) -> Diff {
    diff(vec![patch(path, path, Status::Added, vec![hunk((0, 0), (1, texts.len()), &[], texts)])])
}

#[test]
fn single_line_edit_goes_to_the_commit_that_added_it() {
    let a = file_adding("f", &["a\n", "b\n", "c\n"]);
    let b = diff(vec![patch("f", "f", Status::Modified, vec![hunk((2, 1), (2, 1), &["b\n"], &["B\n"])])]);
    let stack = vec![b, a];
    let index = diff(vec![patch("f", "f", Status::Modified, vec![hunk((1, 1), (1, 1), &["a\n"], &["A\n"])])]);
    assert_eq!(plan(&index, &stack), vec![vec![Outcome::Destination(1, Blocker::Created)]]);
    let head = b"a\nB\nc\n";
    let patched = patch_blob(head, &index.patches[0].hunks[0]);
    assert_eq!(patched, b"A\nB\nc\n".to_vec());
}

#[test]
fn hunk_that_commutes_past_everything_stops_at_the_creation() {
    let stack = vec![file_adding("f", &["x\n", "y\n"])];
    let index = diff(vec![patch("f", "f", Status::Modified, vec![hunk((2, 0), (3, 1), &[], &["z\n"])])]);
    assert_eq!(index.patches[0].hunks[0].anchors(), (3, 0, 3, 1));
    assert_eq!(plan(&index, &stack), vec![vec![Outcome::Destination(0, Blocker::Created)]]);
}

#[test]
fn conflict_with_latest_commit() {
    let a = file_adding("f", &["a\n"]);
    let b = diff(vec![patch("f", "f", Status::Modified, vec![hunk((1, 1), (1, 1), &["a\n"], &["b\n"])])]);
    let stack = vec![b, a];
    let index = diff(vec![patch("f", "f", Status::Modified, vec![hunk((1, 1), (1, 1), &["b\n"], &["c\n"])])]);
    assert_eq!(plan(&index, &stack), vec![vec![Outcome::Destination(0, Blocker::Conflict)]]);
}

#[test]
fn rename_is_followed_back_to_the_old_path() {
    let a = file_adding("f", &["a\n", "b\n"]);
    let b = diff(vec![patch("f", "g", Status::Renamed, vec![])]);
    let stack = vec![b, a];
    let index = diff(vec![patch("g", "g", Status::Modified, vec![hunk((1, 1), (1, 1), &["a\n"], &["A\n"])])]);
    assert_eq!(plan(&index, &stack), vec![vec![Outcome::Destination(1, Blocker::Created)]]);
    assert_eq!(find_destination(&index.patches[0].hunks[0], b"f", &vec![file_adding("f", &["a\n"])]), Some((0, Blocker::Created)));
}

#[test]
fn file_creation_blocks_the_walk() {
    let stack = vec![file_adding("f", &["x\n"])];
    let index = diff(vec![patch("f", "f", Status::Modified, vec![hunk((1, 1), (1, 1), &["x\n"], &["y\n"])])]);
    assert_eq!(plan(&index, &stack), vec![vec![Outcome::Destination(0, Blocker::Created)]]);
}

#[test]
fn hunk_below_staged_deletion_moves_past_insertion_above() {
    let a = file_adding("f", &["p\n", "q\n", "r\n", "s\n"]);
    let b = diff(vec![patch("f", "f", Status::Modified, vec![hunk((0, 0), (1, 3), &[], &["n1\n", "n2\n", "n3\n"])])]);
    let stack = vec![b, a];
    let index = diff(vec![patch(
        "f",
        "f",
        Status::Modified,
        vec![
            hunk((1, 2), (0, 0), &["n1\n", "n2\n"], &[]),
            hunk((4, 1), (2, 1), &["p\n"], &["P\n"]),
        ],
    )]);
    let second = &index.patches[0].hunks[1];
    assert_eq!(second.anchors(), (4, 1, 2, 1));
    let moved = commute(second, &stack[0].patches[0].hunks[0]).expect("commutes");
    assert_eq!(moved.anchors(), (1, 1, -1, 1));
    assert_eq!(
        plan(&index, &stack),
        vec![vec![Outcome::Destination(0, Blocker::Conflict), Outcome::Destination(1, Blocker::Created)]]
    );
}

#[test]
fn empty_stack_gives_no_destination() {
    let stack: Vec<Diff> = vec![];
    let index = diff(vec![patch("f", "f", Status::Modified, vec![hunk((1, 1), (1, 1), &["x\n"], &["y\n"])])]);
    assert_eq!(plan(&index, &stack), vec![vec![Outcome::NoDestination]]);
}

#[test]
fn empty_index_plans_nothing() {
    let stack = vec![file_adding("f", &["x\n"])];
    assert!(plan(&diff(vec![]), &stack).is_empty());
}

#[test]
fn non_modified_patches_are_skipped() {
    let stack = vec![file_adding("f", &["x\n"])];
    let index = diff(vec![patch("g", "g", Status::Added, vec![hunk((0, 0), (1, 1), &[], &["n\n"])])]);
    assert_eq!(plan(&index, &stack), vec![vec![Outcome::Skipped]]);
}

#[test]
fn untouched_file_moves_past_commit_to_no_destination() {
    let stack = vec![file_adding("other", &["x\n"])];
    let index = diff(vec![patch("f", "f", Status::Modified, vec![hunk((1, 1), (1, 1), &["x\n"], &["y\n"])])]);
    assert_eq!(plan(&index, &stack), vec![vec![Outcome::NoDestination]]);
}

#[test]
fn planning_twice_gives_the_same_outcomes() {
    let a = file_adding("f", &["a\n", "b\n", "c\n"]);
    let b = diff(vec![patch("f", "f", Status::Modified, vec![hunk((2, 1), (2, 1), &["b\n"], &["B\n"])])]);
    let stack = vec![b, a];
    let index = diff(vec![patch("f", "f", Status::Modified, vec![hunk((2, 1), (2, 1), &["B\n"], &["C\n"])])]);
    assert_eq!(plan(&index, &stack), plan(&index, &stack));
    assert_eq!(plan(&index, &stack), vec![vec![Outcome::Destination(0, Blocker::Conflict)]]);
}

#[test]
fn commute_below_shifts_by_net_growth() {
    // earlier adds two lines at 2..4 in place of one
    let earlier = Hunk { removed: block(2, &["b\n"]), added: block(2, &["b1\n", "b2\n"]) };
    let later = Hunk { removed: block(5, &["d\n"]), added: block(5, &["D\n"]) };
    let moved = commute(&later, &earlier).expect("commutes");
    assert_eq!(moved.anchors(), (4, 1, 4, 1));
    assert_eq!(moved.added.lines, vec![b"D\n".to_vec()]);
}

#[test]
fn commute_above_keeps_positions() {
    let earlier = Hunk { removed: block(3, &["c\n"]), added: block(3, &[]) };
    let later = Hunk { removed: block(1, &["a\n"]), added: block(1, &["A\n", "A2\n"]) };
    let moved = commute(&later, &earlier).expect("commutes");
    assert_eq!(moved.anchors(), (1, 1, 1, 2));
}

#[test]
fn overlapping_hunks_conflict_both_ways() {
    let earlier = Hunk { removed: block(2, &["b\n"]), added: block(2, &["x\n", "y\n"]) };
    let later = Hunk { removed: block(3, &["y\n"]), added: block(3, &["z\n"]) };
    assert!(commute(&later, &earlier).is_none());
    let inv_later = Hunk { removed: block(3, &["z\n"]), added: block(3, &["y\n"]) };
    let inv_earlier = Hunk { removed: block(2, &["x\n", "y\n"]), added: block(2, &["b\n"]) };
    assert!(commute(&inv_earlier, &inv_later).is_none());
    let far = Hunk { removed: block(5, &["e\n"]), added: block(5, &["E\n"]) };
    let inv_far = Hunk { removed: block(5, &["E\n"]), added: block(5, &["e\n"]) };
    assert!(commute(&far, &earlier).is_some());
    assert!(commute(&inv_earlier, &inv_far).is_some());
}

fn apply(file: &[&str], h: &Hunk) -> Vec<Vec<u8>> {
    let mut out: Vec<Vec<u8>> = file[..h.removed.start as usize - 1].iter().map(|l| l.as_bytes().to_vec()).collect();
    out.extend(h.added.lines.iter().cloned());
    out.extend(file[h.removed.start as usize - 1 + h.removed.lines.len()..].iter().map(|l| l.as_bytes().to_vec()));
    out
}

#[test]
fn commuted_hunk_gives_same_file() {
    let f = ["a\n", "b\n", "c\n", "d\n", "e\n"];
    let earlier = Hunk { removed: block(2, &["b\n"]), added: block(2, &["b1\n", "b2\n"]) };
    let later = Hunk { removed: block(5, &["d\n"]), added: block(5, &["D\n"]) };
    let mid: Vec<Vec<u8>> = apply(&f, &earlier);
    let mid_strs: Vec<&str> = mid.iter().map(|l| std::str::from_utf8(l).unwrap()).collect();
    let one = apply(&mid_strs, &later);
    let moved = commute(&later, &earlier).unwrap();
    let first = apply(&f, &moved);
    let first_strs: Vec<&str> = first.iter().map(|l| std::str::from_utf8(l).unwrap()).collect();
    let other = apply(&first_strs, &earlier);
    assert_eq!(one, other);
}

#[test]
fn commute_past_patch_walks_from_the_last_hunk() {
    let es = vec![
        Hunk { removed: block(1, &["a\n"]), added: block(1, &[]) },
        Hunk { removed: block(4, &[]), added: block(3, &["n1\n", "n2\n"]) },
    ];
    let later = Hunk { removed: block(6, &["x\n"]), added: block(6, &["X\n"]) };
    let moved = commute_diff_before(&later, &es).unwrap();
    assert_eq!(moved.anchors(), (5, 1, 5, 1));
    let inside = Hunk { removed: block(3, &["n1\n"]), added: block(3, &[]) };
    assert!(commute_diff_before(&inside, &es).is_none());
}

#[test]
fn parse_keeps_sides_and_reports_errors() {
    let mut ls = lines(b'-', &["a\n"]);
    ls.extend(lines(b' ', &["ctx\n"]));
    ls.extend(lines(b'+', &["b\n", "c\n"]));
    let h = Hunk::parse(4, 1, 4, 2, &ls).unwrap();
    assert_eq!(h.anchors(), (4, 1, 4, 2));
    assert_eq!(h.added.lines, vec![b"b\n".to_vec(), b"c\n".to_vec()]);
    assert_eq!(Hunk::parse(4, 2, 4, 2, &ls).unwrap_err(), ParseError::CountMismatch);
    let mut bad = lines(b'-', &["a\n"]);
    bad.extend(lines(b'?', &["q\n"]));
    assert_eq!(Hunk::parse(1, 1, 1, 0, &bad).unwrap_err(), ParseError::UnknownOrigin(b'?'));
    assert_eq!(Hunk::parse(usize::MAX, 0, 1, 0, &vec![]).unwrap_err(), ParseError::BadPosition);
    assert_eq!(Hunk::parse(0, 1, 1, 0, &lines(b'-', &["a\n"])).unwrap_err(), ParseError::BadPosition);
    let del = Hunk::parse(3, 1, 2, 0, &lines(b'-', &["c\n"])).unwrap();
    assert_eq!(del.anchors(), (3, 1, 3, 0));
}

#[test]
fn by_new_finds_exact_path() {
    let d = diff(vec![patch("a", "b", Status::Renamed, vec![]), patch("c", "c", Status::Modified, vec![])]);
    assert_eq!(d.by_new(b"b").unwrap().old_path, b"a".to_vec());
    assert!(d.by_new(b"a").is_none());
    assert!(d.by_new(b"c/").is_none());
}

#[test]
fn patch_blob_replaces_inserts_and_deletes() {
    let h = Hunk { removed: block(2, &["b\n"]), added: block(2, &["X\n", "Y\n"]) };
    assert_eq!(patch_blob(b"a\nb\nc\n", &h), b"a\nX\nY\nc\n".to_vec());
    let ins = Hunk { removed: block(4, &[]), added: block(4, &["d\n"]) };
    assert_eq!(patch_blob(b"a\nb\nc\n", &ins), b"a\nb\nc\nd\n".to_vec());
    let del = Hunk { removed: block(1, &["a\n", "b\n"]), added: block(1, &[]) };
    assert_eq!(patch_blob(b"a\nb\nc", &del), b"c".to_vec());
}

#[test]
fn split_path_at_first_slash() {
    assert_eq!(split_path(b"dir/sub/file"), Some((b"dir".to_vec(), b"sub/file".to_vec())));
    assert_eq!(split_path(b"file"), None);
    assert_eq!(split_path(b"/x"), Some((vec![], b"x".to_vec())));
}

#[test]
fn fixup_message_names_target() {
    let id = b"0123456789abcdef0123456789abcdef01234567";
    assert_eq!(
        fixup_message(id, Some(b"add f")),
        b"fixup! 0123456789abcdef0123456789abcdef01234567 add f".to_vec()
    );
    assert_eq!(
        fixup_message(id, None),
        b"fixup! 0123456789abcdef0123456789abcdef01234567 <no message>".to_vec()
    );
}
