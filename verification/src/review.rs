//! The review sidebar's selection state: which changed file is shown, which
//! diff request is current, and the reference a selected diff line quotes.
//!
//! The sidebar's views, scroll handles and background tasks stay with the
//! application; every decision about them is a transition of
//! [`ReviewState`], stated as a spec function and followed exactly by the
//! method of the same purpose.

use vstd::prelude::*;
use vstd::string::*;

use crate::text::{decimal, push_decimal, same_text};

verus! {

/// One changed file of a repository snapshot.
pub struct ChangedFile {
    /// The path relative to the repository root.
    pub path: String,
    /// The two-letter porcelain status; `??` marks an untracked file.
    pub status: String,
}

/// One row of the file tree as the sidebar lists it.
pub struct TreeRow {
    /// The row's path.
    pub path: String,
    /// Whether the row is a file (rather than a directory).
    pub is_file: bool,
}

/// One line of a prepared diff.
pub struct DiffLine {
    /// The line's number in the old version, when it has one.
    pub old_line: Option<usize>,
    /// The line's number in the new version, when it has one.
    pub new_line: Option<usize>,
    /// The line's text.
    pub text: String,
}

/// The direction of a "previous/next" command.
#[derive(Debug, Clone, Copy, PartialEq, Eq, Structural)]
pub enum ChangeDirection {
    Previous,
    Next,
}

/// What a visibility change asks of the status model.
#[derive(Debug, Clone, Copy, PartialEq, Eq, Structural)]
pub enum VisibilityChange {
    /// Nothing changed.
    Unchanged,
    /// The sidebar was hidden; the model stops treating it as open.
    Hidden,
    /// The sidebar was shown; the model is marked open and refreshed.
    Shown,
}

/// A diff to fetch in the background.
pub struct DiffRequest {
    /// The selected path.
    pub path: String,
    /// Whether the file is untracked, so it is diffed against nothing.
    pub untracked: bool,
    /// The request's sequence number; only a result carrying the current
    /// number is applied.
    pub seq: u64,
}

/// One workspace's review state.
pub struct ReviewState {
    /// The working directory whose repository is reviewed.
    pub cwd: String,
    /// The selected file's path.
    pub selected: Option<String>,
    /// The selected line of the shown diff.
    pub selected_line: Option<usize>,
    /// The sequence number of the newest diff request.
    pub diff_seq: u64,
    /// The last snapshot sequence number handled.
    pub seen_snapshot_seq: u64,
    /// Whether a diff is being fetched with nothing yet shown.
    pub loading: bool,
    /// Whether the sidebar is on screen.
    pub visible: bool,
    /// Whether a selected line can be quoted into an agent conversation.
    pub can_quote: bool,
    /// Whether the file list is open.
    pub files_open: bool,
    /// Whether the file filter is open.
    pub filter_open: bool,
    /// Whether diff lines wrap.
    pub wrap: bool,
    /// The file tree's rows as listed.
    pub rows: Vec<TreeRow>,
    /// The directories collapsed in the file tree.
    pub collapsed: Vec<String>,
}

/// The view of an optional string.
pub open spec fn opt_view(s: Option<String>) -> Option<Seq<char>> {
    match s {
        Some(t) => Some(t@),
        None => None,
    }
}

/// Whether some changed file has path `p`.
pub open spec fn has_path(files: Seq<ChangedFile>, p: Seq<char>) -> bool {
    exists|k: int| 0 <= k < files.len() && #[trigger] files[k].path@ == p
}

/// The file to select after a new snapshot: the current selection while the
/// snapshot still lists it, otherwise the snapshot's first file.
pub open spec fn next_selection(selected: Option<String>, files: Option<Seq<ChangedFile>>) -> Option<
    String,
> {
    match files {
        Some(f) => match selected {
            Some(p) if has_path(f, p@) => Some(p),
            _ => if f.len() > 0 {
                Some(f[0].path)
            } else {
                None
            },
        },
        None => None,
    }
}

/// The state after a new snapshot: a changed selection drops the selected
/// line and supersedes any diff in flight.
pub open spec fn snapshot_changed(s: ReviewState, files: Option<Seq<ChangedFile>>) -> ReviewState {
    let next = next_selection(s.selected, files);
    if opt_view(next) != opt_view(s.selected) {
        ReviewState {
            selected: next,
            selected_line: None,
            diff_seq: (s.diff_seq + 1) as u64,
            ..s
        }
    } else {
        s
    }
}

/// The state after the user picks `path`: the file list opens, and a new
/// path drops the selected line.
pub open spec fn selected_path(s: ReviewState, path: String) -> ReviewState {
    if opt_view(s.selected) == Some(path@) {
        ReviewState { files_open: true, ..s }
    } else {
        ReviewState { selected: Some(path), selected_line: None, files_open: true, ..s }
    }
}

/// Whether the snapshot lists `path` as untracked.
pub open spec fn is_untracked(files: Seq<ChangedFile>, path: Seq<char>) -> bool {
    exists|k: int|
        0 <= k < files.len() && #[trigger] files[k].path@ == path && files[k].status@ == seq![
            '?',
            '?',
        ]
}

/// The state after a diff fetch is started: with a selection and a snapshot
/// the request gets the next sequence number, and the sidebar shows it is
/// loading only when no diff is shown; otherwise nothing is fetched.
pub open spec fn fetch_started(s: ReviewState, files: Option<Seq<ChangedFile>>, diff_empty: bool) -> ReviewState {
    if s.selected is Some && files is Some {
        ReviewState { diff_seq: (s.diff_seq + 1) as u64, loading: diff_empty, ..s }
    } else {
        ReviewState { loading: false, ..s }
    }
}

/// The state after the diff of request `seq` arrived and, if current, was
/// shown with `diff_len` lines: a stale result changes nothing.
pub open spec fn diff_loaded(s: ReviewState, seq: u64, diff_len: usize) -> ReviewState {
    if seq == s.diff_seq {
        ReviewState {
            selected_line: match s.selected_line {
                Some(i) if i < diff_len => Some(i),
                _ => None,
            },
            loading: false,
            ..s
        }
    } else {
        s
    }
}

impl ReviewState {
    /// A sidebar reviewing the repository of `cwd`: nothing selected, hidden,
    /// with its file list open, its filter closed, no wrapping, no rows and
    /// nothing collapsed.
    pub fn new(cwd: String) -> (r: ReviewState)
        ensures
            r.cwd@ == cwd@,
            r.selected is None,
            r.selected_line is None,
            r.diff_seq == 0,
            r.seen_snapshot_seq == 0,
            !r.loading,
            !r.visible,
            !r.can_quote,
            r.files_open,
            !r.filter_open,
            !r.wrap,
            r.rows@.len() == 0,
            r.collapsed@.len() == 0,
    {
        ReviewState {
            cwd,
            selected: None,
            selected_line: None,
            diff_seq: 0,
            seen_snapshot_seq: 0,
            loading: false,
            visible: false,
            can_quote: false,
            files_open: true,
            filter_open: false,
            wrap: false,
            rows: Vec::new(),
            collapsed: Vec::new(),
        }
    }

    /// The working directory whose repository is reviewed.
    pub fn cwd(&self) -> (r: &str)
        ensures
            r@ == self.cwd@,
    {
        self.cwd.as_str()
    }

    /// Records whether quoting into an agent conversation is available.
    pub fn set_quote_available(&mut self, available: bool)
        ensures
            *final(self) == (ReviewState { can_quote: available, ..*old(self) }),
    {
        self.can_quote = available;
    }

    /// Shows or hides the sidebar, and says what the status model has to be
    /// told.
    pub fn set_visible(&mut self, visible: bool) -> (r: VisibilityChange)
        ensures
            *final(self) == (ReviewState { visible: visible, ..*old(self) }),
            r == if old(self).visible == visible {
                VisibilityChange::Unchanged
            } else if visible {
                VisibilityChange::Shown
            } else {
                VisibilityChange::Hidden
            },
    {
        if self.visible == visible {
            return VisibilityChange::Unchanged;
        }
        self.visible = visible;
        if visible {
            VisibilityChange::Shown
        } else {
            VisibilityChange::Hidden
        }
    }

    /// Notes the status model's snapshot sequence number, and says whether it
    /// is a snapshot not yet handled.
    pub fn observe_snapshot(&mut self, seq: u64) -> (r: bool)
        ensures
            r == (seq != old(self).seen_snapshot_seq),
            *final(self) == (ReviewState { seen_snapshot_seq: seq, ..*old(self) }),
    {
        let fresh = seq != self.seen_snapshot_seq;
        self.seen_snapshot_seq = seq;
        fresh
    }

    /// Follows a new snapshot (`files` is `None` while there is none), and
    /// says whether the selection changed, in which case the shown diff and
    /// its scroll position are to be reset.
    pub fn on_snapshot_changed(&mut self, files: Option<&Vec<ChangedFile>>) -> (r: bool)
        requires
            old(self).diff_seq < u64::MAX,
        ensures
            *final(self) == snapshot_changed(*old(self), files_view(files)),
            r == (opt_view(next_selection(old(self).selected, files_view(files))) != opt_view(
                old(self).selected,
            )),
    {
        let ghost old_self = *self;
        let next: Option<String> = match files {
            Some(f) => {
                let kept = match &self.selected {
                    Some(p) => {
                        if contains_path(f, p.as_str()) {
                            Some(p.clone())
                        } else {
                            None
                        }
                    },
                    None => None,
                };
                match kept {
                    Some(p) => Some(p),
                    None => {
                        if f.len() > 0 {
                            Some(f[0].path.clone())
                        } else {
                            None
                        }
                    },
                }
            },
            None => None,
        };
        let changed = match (&next, &self.selected) {
            (Some(a), Some(b)) => !same_text(a.as_str(), b.as_str()),
            (None, None) => false,
            _ => true,
        };
        if changed {
            self.selected = next;
            self.selected_line = None;
            self.diff_seq = self.diff_seq + 1;
        }
        proof {
            assert(opt_view(next) == opt_view(next_selection(old_self.selected, files_view(files))));
        }
        changed
    }

    /// Selects `path`, and says whether it is a new selection whose diff is
    /// to be fetched.
    pub fn select(&mut self, path: String) -> (r: bool)
        ensures
            *final(self) == selected_path(*old(self), path),
            r == (opt_view(old(self).selected) != Some(path@)),
    {
        self.files_open = true;
        let same = match &self.selected {
            Some(p) => same_text(p.as_str(), path.as_str()),
            None => false,
        };
        if same {
            return false;
        }
        self.selected = Some(path);
        self.selected_line = None;
        true
    }

    /// Starts fetching the selected file's diff from the snapshot `files`;
    /// `diff_empty` says whether no diff is shown at the moment.
    pub fn begin_fetch(&mut self, files: Option<&Vec<ChangedFile>>, diff_empty: bool) -> (r: Option<
        DiffRequest,
    >)
        requires
            old(self).diff_seq < u64::MAX,
        ensures
            *final(self) == fetch_started(*old(self), files_view(files), diff_empty),
            r is Some <==> old(self).selected is Some && files is Some,
            r matches Some(req) ==> {
                &&& req.path == old(self).selected->0
                &&& req.seq == final(self).diff_seq
                &&& req.untracked == is_untracked(files_view(files)->0, req.path@)
                &&& req.untracked <==> exists|k: int|
                    0 <= k < files->0@.len() && #[trigger] files->0@[k].path@ == req.path@
                        && files->0@[k].status@ == seq!['?', '?']
            },
    {
        let path = match &self.selected {
            Some(p) => p.clone(),
            None => {
                self.loading = false;
                return None;
            },
        };
        let f = match files {
            Some(f) => f,
            None => {
                self.loading = false;
                return None;
            },
        };
        let untracked = has_untracked(f, path.as_str());
        self.diff_seq = self.diff_seq + 1;
        self.loading = diff_empty;
        Some(DiffRequest { path, untracked, seq: self.diff_seq })
    }

    /// Whether a fetched diff carrying `seq` is still the current one.
    pub fn accepts(&self, seq: u64) -> (r: bool)
        ensures
            r == (seq == self.diff_seq),
    {
        seq == self.diff_seq
    }

    /// Records that the diff of request `seq` arrived and, when current, is
    /// now shown with `diff_len` lines.
    pub fn diff_loaded(&mut self, seq: u64, diff_len: usize)
        ensures
            *final(self) == diff_loaded(*old(self), seq, diff_len),
            seq == old(self).diff_seq ==> !final(self).loading,
            seq == old(self).diff_seq ==> (old(self).selected_line matches Some(i) ==> (i < diff_len
                ==> final(self).selected_line == Some(i))),
            seq == old(self).diff_seq ==> (old(self).selected_line matches Some(i) ==> (i >= diff_len
                ==> final(self).selected_line is None)),
            seq == old(self).diff_seq && old(self).selected_line is None ==> final(self).selected_line is None,
            seq != old(self).diff_seq ==> *final(self) == *old(self),
    {
        if seq != self.diff_seq {
            return;
        }
        self.selected_line = match self.selected_line {
            Some(i) => if i < diff_len {
                Some(i)
            } else {
                None
            },
            None => None,
        };
        self.loading = false;
    }
}

/// The contents of an optional snapshot.
pub open spec fn files_view(files: Option<&Vec<ChangedFile>>) -> Option<Seq<ChangedFile>> {
    match files {
        Some(f) => Some(f@),
        None => None,
    }
}

/// Whether some changed file has path `p`.
fn contains_path(files: &Vec<ChangedFile>, p: &str) -> (r: bool)
    ensures
        r == has_path(files@, p@),
{
    let mut i: usize = 0;
    while i < files.len()
        invariant
            i <= files@.len(),
            forall|k: int| 0 <= k < i ==> files@[k].path@ != p@,
        decreases files.len() - i,
    {
        if same_text(files[i].path.as_str(), p) {
            return true;
        }
        i = i + 1;
    }
    false
}

/// Whether the snapshot lists `p` as untracked.
fn has_untracked(files: &Vec<ChangedFile>, p: &str) -> (r: bool)
    ensures
        r == is_untracked(files@, p@),
{
    let mut i: usize = 0;
    while i < files.len()
        invariant
            i <= files@.len(),
            forall|k: int|
                0 <= k < i ==> !(files@[k].path@ == p@ && files@[k].status@ == seq!['?', '?']),
        decreases files.len() - i,
    {
        let same = same_text(files[i].path.as_str(), p);
        let status = same_text(files[i].status.as_str(), "??");
        proof {
            reveal_strlit("??");
            assert(seq!['?', '?'] =~= "??"@);
        }
        if same && status {
            return true;
        }
        i = i + 1;
    }
    false
}

// ---------------------------------------------------------------------------
// Moving through files and changes
// ---------------------------------------------------------------------------

/// The indices of the rows that are files, in order.
pub open spec fn file_rows(rows: Seq<TreeRow>) -> Seq<int>
    decreases rows.len(),
{
    if rows.len() == 0 {
        Seq::empty()
    } else if rows.last().is_file {
        file_rows(rows.drop_last()).push(rows.len() - 1)
    } else {
        file_rows(rows.drop_last())
    }
}

/// The first position at or after `from` in `files` whose row has path `p`.
pub open spec fn first_with_path(rows: Seq<TreeRow>, files: Seq<int>, p: Seq<char>, from: int) -> Option<int>
    decreases files.len() - from,
{
    if from < 0 || from >= files.len() {
        None
    } else if rows[files[from]].path@ == p {
        Some(from)
    } else {
        first_with_path(rows, files, p, from + 1)
    }
}

/// The position among the file rows that a "previous/next file" command
/// moves to from the selection: one step, stopping at either end, or the
/// first file when the selection is not listed.
pub open spec fn adjacent_position(current: Option<int>, count: int, direction: ChangeDirection) -> int {
    match current {
        Some(i) => match direction {
            ChangeDirection::Next => if i + 1 < count - 1 {
                i + 1
            } else {
                count - 1
            },
            ChangeDirection::Previous => if i > 0 {
                i - 1
            } else {
                0
            },
        },
        None => 0,
    }
}

/// The file row a "previous/next file" command moves to.
pub open spec fn adjacent_row(rows: Seq<TreeRow>, selected: Option<Seq<char>>, direction: ChangeDirection) -> Option<int> {
    let files = file_rows(rows);
    if files.len() == 0 {
        None
    } else {
        let current = match selected {
            Some(p) => first_with_path(rows, files, p, 0),
            None => None,
        };
        Some(files[adjacent_position(current, files.len() as int, direction)])
    }
}

proof fn lemma_file_rows_bounds(rows: Seq<TreeRow>)
    ensures
        file_rows(rows).len() <= rows.len(),
        forall|k: int|
            0 <= k < file_rows(rows).len() ==> 0 <= #[trigger] file_rows(rows)[k] < rows.len()
                && rows[file_rows(rows)[k]].is_file,
    decreases rows.len(),
{
    if rows.len() > 0 {
        lemma_file_rows_bounds(rows.drop_last());
    }
}

proof fn lemma_first_with_path_bounds(rows: Seq<TreeRow>, files: Seq<int>, p: Seq<char>, from: int)
    ensures
        first_with_path(rows, files, p, from) matches Some(k) ==> from <= k < files.len(),
    decreases files.len() - from,
{
    if 0 <= from < files.len() && rows[files[from]].path@ != p {
        lemma_first_with_path_bounds(rows, files, p, from + 1);
    }
}

/// The file row (its index and path) a "previous/next file" command moves
/// to from the selection, or `None` when no row is a file.
pub fn adjacent_file(rows: &Vec<TreeRow>, selected: Option<&String>, direction: ChangeDirection) -> (r:
    Option<(usize, String)>)
    ensures
        match r {
            Some((row, path)) => adjacent_row(rows@, opt_ref_view(selected), direction) == Some(
                row as int,
            ) && row < rows@.len() && rows@[row as int].is_file && path@ == rows@[row as int].path@,
            None => adjacent_row(rows@, opt_ref_view(selected), direction) is None,
        },
{
    let mut files: Vec<usize> = Vec::new();
    let mut i: usize = 0;
    while i < rows.len()
        invariant
            i <= rows@.len(),
            files@.len() == file_rows(rows@.subrange(0, i as int)).len(),
            forall|k: int|
                0 <= k < files@.len() ==> files@[k] as int == #[trigger] file_rows(
                    rows@.subrange(0, i as int),
                )[k],
        decreases rows.len() - i,
    {
        proof {
            let next = rows@.subrange(0, i + 1);
            assert(next.drop_last() =~= rows@.subrange(0, i as int));
            assert(next.last() == rows@[i as int]);
        }
        if rows[i].is_file {
            files.push(i);
        }
        i = i + 1;
    }
    let ghost fr = file_rows(rows@);
    proof {
        assert(rows@.subrange(0, i as int) =~= rows@);
        lemma_file_rows_bounds(rows@);
    }
    if files.len() == 0 {
        return None;
    }
    let current: Option<usize> = match selected {
        Some(p) => {
            let mut k: usize = 0;
            let mut found: Option<usize> = None;
            while k < files.len()
                invariant_except_break
                    found is None,
                invariant
                    files@.len() == fr.len(),
                    forall|j: int| 0 <= j < files@.len() ==> files@[j] as int == #[trigger] fr[j],
                    forall|j: int| 0 <= j < fr.len() ==> 0 <= #[trigger] fr[j] < rows@.len(),
                    fr == file_rows(rows@),
                    k <= files@.len(),
                    first_with_path(rows@, fr, p@, k as int) == first_with_path(rows@, fr, p@, 0),
                ensures
                    match found {
                        Some(j) => first_with_path(rows@, fr, p@, 0) == Some(j as int),
                        None => first_with_path(rows@, fr, p@, 0) is None,
                    },
                decreases files.len() - k,
            {
                assert(fr[k as int] == files@[k as int]);
                if same_text(rows[files[k]].path.as_str(), p.as_str()) {
                    found = Some(k);
                    break;
                }
                k = k + 1;
            }
            found
        },
        None => None,
    };
    proof {
        if selected is Some {
            lemma_first_with_path_bounds(rows@, fr, selected->0@, 0);
        }
    }
    let count = files.len();
    let pos: usize = match current {
        Some(c) => match direction {
            ChangeDirection::Next => if c + 1 < count - 1 {
                c + 1
            } else {
                count - 1
            },
            ChangeDirection::Previous => if c > 0 {
                c - 1
            } else {
                0
            },
        },
        None => 0,
    };
    proof {
        assert(fr[pos as int] == files@[pos as int]);
    }
    let row = files[pos];
    Some((row, rows[row].path.clone()))
}

/// The view of an optional string reference.
pub open spec fn opt_ref_view(s: Option<&String>) -> Option<Seq<char>> {
    match s {
        Some(t) => Some(t@),
        None => None,
    }
}

/// The change a "previous/next change" command jumps to from change
/// `current` of `change_count`: one step, stopping at either end.
pub fn jump_target(current: usize, change_count: usize, direction: ChangeDirection) -> (r: usize)
    requires
        current < usize::MAX,
    ensures
        r == match direction {
            ChangeDirection::Next => {
                let last = if change_count > 0 {
                    change_count - 1
                } else {
                    0
                };
                if current + 1 < last {
                    current + 1
                } else {
                    last
                }
            },
            ChangeDirection::Previous => if current > 0 {
                current - 1
            } else {
                0
            },
        },
{
    match direction {
        ChangeDirection::Next => {
            let last = change_count.saturating_sub(1);
            if current + 1 < last {
                current + 1
            } else {
                last
            }
        },
        ChangeDirection::Previous => current.saturating_sub(1),
    }
}

// ---------------------------------------------------------------------------
// Quoting a diff line
// ---------------------------------------------------------------------------

/// `path` joined onto `root` as `Path::join` does on Unix: an absolute
/// `path` replaces `root`, otherwise one separator is placed between them
/// unless `root` is empty or already ends in one.
pub open spec fn joined_path(root: Seq<char>, path: Seq<char>) -> Seq<char> {
    if path.len() > 0 && path[0] == '/' {
        path
    } else if root.len() == 0 || root.last() == '/' {
        root + path
    } else {
        root + seq!['/'] + path
    }
}

/// `path` joined onto `root` as `Path::join` does on Unix.
pub fn join_path(root: &str, path: &str) -> (r: String)
    ensures
        r@ == joined_path(root@, path@),
{
    let plen = path.unicode_len();
    if plen > 0 && path.get_char(0) == '/' {
        return String::from_str(path);
    }
    let rlen = root.unicode_len();
    let mut r = String::from_str(root);
    if rlen > 0 && root.get_char(rlen - 1) != '/' {
        r.append("/");
        proof {
            reveal_strlit("/");
        }
    }
    r.append(path);
    proof {
        assert(r@ =~= joined_path(root@, path@));
    }
    r
}

/// The line number a diff line is quoted with: its new number when it has
/// one, else its old one.
pub open spec fn quoted_number(line: DiffLine) -> Option<usize> {
    match line.new_line {
        Some(n) => Some(n),
        None => line.old_line,
    }
}

/// `<root/path>:<number> (<new|old>)\n    <text>`: the reference quoted into an
/// agent conversation for a selected diff line.
pub open spec fn reference_text(root: Seq<char>, path: Seq<char>, line: DiffLine) -> Seq<char> {
    let side = if line.new_line is Some {
        seq!['n', 'e', 'w']
    } else {
        seq!['o', 'l', 'd']
    };
    joined_path(root, path) + seq![':'] + decimal(quoted_number(line)->0 as nat) + seq![' ', '(']
        + side + seq![')', '\n', ' ', ' ', ' ', ' '] + line.text@
}

/// The reference to quote for the selected line, when there is a snapshot
/// root, a selected path, a selected line, and that line has a number.
pub fn selected_reference(root: Option<&str>, path: Option<&str>, line: Option<&DiffLine>) -> (r:
    Option<String>)
    ensures
        r is Some <==> root is Some && path is Some && line is Some && quoted_number(*line->0) is Some,
        r matches Some(text) ==> text@ == reference_text(root->0@, path->0@, *line->0),
        r matches Some(text) ==> (line->0.new_line matches Some(n) ==> text@ == joined_path(
            root->0@,
            path->0@,
        ) + seq![':'] + decimal(n as nat) + seq![' ', '(', 'n', 'e', 'w', ')', '\n', ' ', ' ', ' ', ' ']
            + line->0.text@),
        r matches Some(text) ==> (line->0.new_line is None ==> (line->0.old_line matches Some(n)
            ==> text@ == joined_path(root->0@, path->0@) + seq![':'] + decimal(n as nat) + seq![
            ' ',
            '(',
            'o',
            'l',
            'd',
            ')',
            '\n',
            ' ',
            ' ',
            ' ',
            ' ',
        ] + line->0.text@)),
{
    let root = match root {
        Some(r) => r,
        None => return None,
    };
    let path = match path {
        Some(p) => p,
        None => return None,
    };
    let line = match line {
        Some(l) => l,
        None => return None,
    };
    let number = match line.new_line {
        Some(n) => n,
        None => match line.old_line {
            Some(n) => n,
            None => return None,
        },
    };
    let mut r = join_path(root, path);
    r.append(":");
    push_decimal(&mut r, number as u64);
    r.append(" (");
    if line.new_line.is_some() {
        r.append("new");
    } else {
        r.append("old");
    }
    r.append(")\n    ");
    r.append(line.text.as_str());
    proof {
        reveal_strlit(":");
        reveal_strlit(" (");
        reveal_strlit("new");
        reveal_strlit("old");
        reveal_strlit(")\n    ");
        assert(r@ =~= reference_text(root@, path@, *line));
    }
    Some(r)
}

// ---------------------------------------------------------------------------
// Laws
// ---------------------------------------------------------------------------

/// A diff result that is not the current request changes nothing.
pub proof fn lemma_stale_diff_ignored(s: ReviewState, seq: u64, diff_len: usize)
    requires
        seq != s.diff_seq,
    ensures
        diff_loaded(s, seq, diff_len) == s,
{
}

/// Once a newer fetch has started, the result of the earlier one is stale,
/// while the newest result is applied and ends the loading state.
pub proof fn lemma_newer_fetch_supersedes(
    s: ReviewState,
    first: Seq<ChangedFile>,
    first_empty: bool,
    second: Seq<ChangedFile>,
    second_empty: bool,
    diff_len: usize,
)
    requires
        s.selected is Some,
        s.diff_seq < u64::MAX - 1,
    ensures
        ({
            let s1 = fetch_started(s, Some(first), first_empty);
            let s2 = fetch_started(s1, Some(second), second_empty);
            &&& diff_loaded(s2, s1.diff_seq, diff_len) == s2
            &&& !diff_loaded(s2, s2.diff_seq, diff_len).loading
            &&& diff_loaded(s2, s2.diff_seq, diff_len).selected == s2.selected
        }),
{
}

/// A snapshot that changes the selection makes any diff fetched for the
/// previous selection stale.
pub proof fn lemma_reselection_supersedes(s: ReviewState, files: Option<Seq<ChangedFile>>, diff_len: usize)
    requires
        s.diff_seq < u64::MAX,
        opt_view(next_selection(s.selected, files)) != opt_view(s.selected),
    ensures
        diff_loaded(snapshot_changed(s, files), s.diff_seq, diff_len) == snapshot_changed(s, files),
{
}

/// After a snapshot the selection is one of its files, and it is never empty
/// while the snapshot lists any file.
pub proof fn lemma_selection_follows_snapshot(s: ReviewState, files: Seq<ChangedFile>)
    ensures
        snapshot_changed(s, Some(files)).selected matches Some(p) ==> has_path(files, p@),
        files.len() > 0 ==> snapshot_changed(s, Some(files)).selected is Some,
        s.selected matches Some(q) ==> (has_path(files, q@) ==> opt_view(
            snapshot_changed(s, Some(files)).selected,
        ) == Some(q@)),
{
    if files.len() > 0 {
        // the first file witnesses its own presence
        assert(has_path(files, files[0].path@));
    }
}

/// Picking the selected file again changes nothing more.
pub proof fn lemma_select_idempotent(s: ReviewState, path: String)
    ensures
        selected_path(selected_path(s, path), path) == selected_path(s, path),
{
}

/// "Next file" from the last file and "previous file" from the first stay
/// where they are, and every move lands on a file position.
pub proof fn lemma_adjacent_position_bounds(current: Option<int>, count: int, direction: ChangeDirection)
    requires
        count > 0,
        current matches Some(i) ==> 0 <= i < count,
    ensures
        0 <= adjacent_position(current, count, direction) < count,
        current == Some(count - 1) && direction == ChangeDirection::Next ==> adjacent_position(
            current,
            count,
            direction,
        ) == count - 1,
        current == Some(0int) && direction == ChangeDirection::Previous ==> adjacent_position(
            current,
            count,
            direction,
        ) == 0,
{
}

/// "Previous file" from position `i > 0` lands on `i - 1`, "next file" on
/// `i + 1` unless that passes the last file, and an unlisted selection lands
/// on the first file.
pub proof fn lemma_adjacent_position_steps(i: int, count: int)
    requires
        0 <= i < count,
    ensures
        i > 0 ==> adjacent_position(Some(i), count, ChangeDirection::Previous) == i - 1,
        i + 1 < count ==> adjacent_position(Some(i), count, ChangeDirection::Next) == i + 1,
        i + 1 == count ==> adjacent_position(Some(i), count, ChangeDirection::Next) == i,
        adjacent_position(None, count, ChangeDirection::Previous) == 0,
        adjacent_position(None, count, ChangeDirection::Next) == 0,
{
}

/// "Previous" and "next" from an inner position undo each other.
pub proof fn lemma_adjacent_steps_invert(i: int, count: int)
    requires
        0 < i < count - 1,
    ensures
        adjacent_position(
            Some(adjacent_position(Some(i), count, ChangeDirection::Previous)),
            count,
            ChangeDirection::Next,
        ) == i,
        adjacent_position(
            Some(adjacent_position(Some(i), count, ChangeDirection::Next)),
            count,
            ChangeDirection::Previous,
        ) == i,
{
}

/// A path is untracked exactly when some file of the snapshot, at any
/// position, has that path and status `??`.
pub proof fn lemma_untracked_anywhere(files: Seq<ChangedFile>, path: Seq<char>, k: int)
    requires
        0 <= k < files.len(),
        files[k].path@ == path,
        files[k].status@ == seq!['?', '?'],
    ensures
        is_untracked(files, path),
{
}

/// A path no file of the snapshot lists as `??` is not untracked.
pub proof fn lemma_untracked_needs_a_listing(files: Seq<ChangedFile>, path: Seq<char>)
    requires
        forall|k: int|
            0 <= k < files.len() ==> !(#[trigger] files[k].path@ == path && files[k].status@ == seq![
                '?',
                '?',
            ]),
    ensures
        !is_untracked(files, path),
{
}

/// Applying the current diff keeps a selected line that is still inside it,
/// drops one past its end, and ends the loading state.
pub proof fn lemma_current_diff_keeps_line(s: ReviewState, diff_len: usize)
    ensures
        s.selected_line matches Some(i) ==> (i < diff_len ==> diff_loaded(
            s,
            s.diff_seq,
            diff_len,
        ).selected_line == Some(i)),
        s.selected_line matches Some(i) ==> (i >= diff_len ==> diff_loaded(
            s,
            s.diff_seq,
            diff_len,
        ).selected_line is None),
        !diff_loaded(s, s.diff_seq, diff_len).loading,
        diff_loaded(s, s.diff_seq, diff_len).selected == s.selected,
{
}

/// A line with a new-side number is quoted with that number; the old-side
/// number is used only for a line without one.
pub proof fn lemma_quoted_number_prefers_new(line: DiffLine)
    ensures
        line.new_line matches Some(n) ==> quoted_number(line) == Some(n),
        line.new_line is None ==> quoted_number(line) == line.old_line,
{
}

proof fn lemma_file_rows_exact(rows: Seq<TreeRow>)
    ensures
        forall|a: int, b: int|
            0 <= a < b < file_rows(rows).len() ==> #[trigger] file_rows(rows)[a] < #[trigger] file_rows(
                rows,
            )[b],
        forall|j: int|
            0 <= j < rows.len() && #[trigger] rows[j].is_file ==> exists|k: int|
                0 <= k < file_rows(rows).len() && #[trigger] file_rows(rows)[k] == j,
    decreases rows.len(),
{
    lemma_file_rows_bounds(rows);
    if rows.len() > 0 {
        let init = rows.drop_last();
        lemma_file_rows_exact(init);
        lemma_file_rows_bounds(init);
        let fi = file_rows(init);
        let fr = file_rows(rows);
        assert forall|j: int| 0 <= j < rows.len() && #[trigger] rows[j].is_file implies exists|k: int|
            0 <= k < fr.len() && #[trigger] fr[k] == j by {
            if j == rows.len() - 1 {
                assert(fr[fi.len() as int] == j);
            } else {
                assert(init[j] == rows[j]);
                let k = choose|k: int| 0 <= k < fi.len() && #[trigger] fi[k] == j;
                assert(fr[k] == fi[k]);
            }
        }
    }
}

proof fn lemma_first_with_path_first(rows: Seq<TreeRow>, files: Seq<int>, p: Seq<char>, from: int)
    requires
        0 <= from,
    ensures
        match first_with_path(rows, files, p, from) {
            Some(k) => from <= k < files.len() && rows[files[k]].path@ == p && forall|j: int|
                from <= j < k ==> rows[#[trigger] files[j]].path@ != p,
            None => forall|j: int| from <= j < files.len() ==> rows[#[trigger] files[j]].path@ != p,
        },
    decreases files.len() - from,
{
    if from < files.len() && rows[files[from]].path@ != p {
        lemma_first_with_path_first(rows, files, p, from + 1);
    }
}

/// With the selection at file row `r` (the first file row with that path),
/// "previous file" moves to the nearest file row before `r`, staying at `r`
/// when there is none, and "next file" to the nearest file row after `r`,
/// staying at `r` when there is none.
pub proof fn lemma_adjacent_row_is_nearest_file(rows: Seq<TreeRow>, p: Seq<char>, r: int)
    requires
        0 <= r < rows.len(),
        rows[r].is_file,
        rows[r].path@ == p,
        forall|j: int| 0 <= j < r && #[trigger] rows[j].is_file ==> rows[j].path@ != p,
    ensures
        adjacent_row(rows, Some(p), ChangeDirection::Previous) matches Some(q) && 0 <= q <= r
            && rows[q].is_file && (forall|j: int| q < j < r ==> !#[trigger] rows[j].is_file) && (q
            == r ==> forall|j: int| 0 <= j < r ==> !#[trigger] rows[j].is_file),
        adjacent_row(rows, Some(p), ChangeDirection::Next) matches Some(q) && r <= q < rows.len()
            && rows[q].is_file && (forall|j: int| r < j < q ==> !#[trigger] rows[j].is_file) && (q
            == r ==> forall|j: int| r < j < rows.len() ==> !#[trigger] rows[j].is_file),
{
    let fr = file_rows(rows);
    lemma_file_rows_bounds(rows);
    lemma_file_rows_exact(rows);
    let i = choose|k: int| 0 <= k < fr.len() && #[trigger] fr[k] == r;
    lemma_first_with_path_first(rows, fr, p, 0);
    assert forall|j: int| 0 <= j < i implies rows[#[trigger] fr[j]].path@ != p by {
        assert(fr[j] < fr[i]);
    }
    assert(first_with_path(rows, fr, p, 0) == Some(i)) by {
        match first_with_path(rows, fr, p, 0) {
            Some(k) => {
                if k < i {
                    assert(rows[fr[k]].path@ != p);
                }
                if k > i {
                    assert(rows[fr[i]].path@ == p);
                }
            },
            None => {
                assert(rows[fr[i]].path@ != p);
            },
        }
    }
    let n = fr.len() as int;
    // a file row strictly between two consecutive positions would need a
    // position strictly between them
    assert forall|j: int| 0 <= j < rows.len() && rows[j].is_file implies (j < r ==> (i > 0 && j
        <= fr[i - 1])) && (j > r ==> (i + 1 < n && j >= fr[i + 1])) by {
        let k = choose|k: int| 0 <= k < n && #[trigger] fr[k] == j;
        if k < i - 1 {
            assert(fr[k] < fr[i - 1]);
        }
        if k == i {
        } else if k > i + 1 {
            assert(fr[i + 1] < fr[k]);
        }
        if k < i {
            assert(i > 0);
        }
        if k > i {
            assert(i + 1 < n);
        }
        if j < r {
            assert(k < i) by {
                if k > i {
                    assert(fr[i] < fr[k]);
                }
            }
        }
        if j > r {
            assert(k > i) by {
                if k < i {
                    assert(fr[k] < fr[i]);
                }
            }
        }
    }
    if i > 0 {
        assert(fr[i - 1] < fr[i]);
    }
    if i + 1 < n {
        assert(fr[i] < fr[i + 1]);
    }
}

/// A selection the new snapshot no longer lists moves to the snapshot's first
/// file, drops the selected line and supersedes the diff in flight; a
/// selection it still lists stays, with its line and request.
pub proof fn lemma_snapshot_reselects_first_file(s: ReviewState, files: Seq<ChangedFile>)
    requires
        s.diff_seq < u64::MAX,
    ensures
        files.len() > 0 && !(s.selected matches Some(q) && has_path(files, q@)) ==> {
            let t = snapshot_changed(s, Some(files));
            &&& opt_view(t.selected) == Some(files[0].path@)
            &&& (opt_view(s.selected) != Some(files[0].path@) ==> t.selected_line is None && t.diff_seq
                == s.diff_seq + 1)
        },
        s.selected matches Some(q) ==> (has_path(files, q@) ==> snapshot_changed(s, Some(files))
            == s),
{
}

} // verus!
