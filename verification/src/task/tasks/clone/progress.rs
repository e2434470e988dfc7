//! What the clone task reports while the repository is fetched.
use vstd::prelude::*;

use std::sync::Arc;

use crate::text::{push_decimal, push_str, spec_decimal, string_from_chars};

verus! {

/// The most characters of a task name that a progress line shows.
pub const MAX_NAME_CHARACTERS: usize = 64;

/// A line break is shown as a space.
pub open spec fn flatten_char(c: char) -> char {
    if c == '\n' || c == '\r' { ' ' } else { c }
}

/// `value` on one line and at most `MAX_NAME_CHARACTERS` characters long; a
/// longer value keeps its first `MAX_NAME_CHARACTERS` characters and ends in `…`.
pub open spec fn spec_single_line(value: Seq<char>) -> Seq<char> {
    let flat = value.map_values(|c: char| flatten_char(c));
    if flat.len() > MAX_NAME_CHARACTERS {
        flat.take(MAX_NAME_CHARACTERS as int).push('\u{2026}')
    } else {
        flat
    }
}

/// Keeps a remote-supplied name to one bounded line.
pub fn single_line(value: &str) -> (line: String)
    ensures
        line@ == spec_single_line(value@),
{
    let n: usize = value.unicode_len();
    let limit: usize = if n > MAX_NAME_CHARACTERS { MAX_NAME_CHARACTERS } else { n };
    let mut chars: Vec<char> = Vec::new();
    let mut i: usize = 0;
    while i < limit
        invariant
            n == value@.len(),
            limit <= n,
            limit <= MAX_NAME_CHARACTERS,
            i <= limit,
            chars@ == value@.take(i as int).map_values(|c: char| flatten_char(c)),
        decreases limit - i,
    {
        let c = value.get_char(i);
        let flat = if c == '\n' || c == '\r' { ' ' } else { c };
        chars.push(flat);
        proof {
            assert(value@.take(i + 1).map_values(|c: char| flatten_char(c))
                =~= value@.take(i as int).map_values(|c: char| flatten_char(c)).push(flatten_char(value@[i as int])));
        }
        i = i + 1;
    }
    if n > MAX_NAME_CHARACTERS {
        chars.push('\u{2026}');
    }
    proof {
        let flat = value@.map_values(|c: char| flatten_char(c));
        if n > MAX_NAME_CHARACTERS {
            assert(flat.take(MAX_NAME_CHARACTERS as int) =~= value@.take(MAX_NAME_CHARACTERS as int).map_values(|c: char| flatten_char(c)));
        } else {
            assert(value@.take(n as int) =~= value@);
        }
    }
    string_from_chars(&chars)
}

/// Keeps a remote-supplied name to one bounded line: no line breaks, at most one
/// character more than `MAX_NAME_CHARACTERS`, and a cut name ends in `…`.
pub proof fn lemma_single_line_is_bounded(value: Seq<char>)
    ensures
        spec_single_line(value).len() <= MAX_NAME_CHARACTERS + 1,
        !spec_single_line(value).contains('\n'),
        !spec_single_line(value).contains('\r'),
        value.len() > MAX_NAME_CHARACTERS ==> {
            &&& spec_single_line(value).len() == MAX_NAME_CHARACTERS + 1
            &&& spec_single_line(value).last() == '\u{2026}'
        },
        value.len() <= MAX_NAME_CHARACTERS ==> spec_single_line(value).len() == value.len(),
{
    let line = spec_single_line(value);
    assert forall|i: int| 0 <= i < line.len() implies line[i] != '\n' && line[i] != '\r' by {
        if i < value.len() && i < MAX_NAME_CHARACTERS {
            assert(line[i] == flatten_char(value[i]));
        }
    }
}

/// The most progress rows shown at once.
pub const MAX_ROWS: usize = 3;

/// One task of the progress tree as it stood when looked at: its name and, for a
/// task that reports progress, the step reached, the step at which it is done,
/// and the step written in the task's own unit when it has one.
pub struct ProgressSnapshot {
    pub step: usize,
    pub done_at: Option<usize>,
    pub unit_text: Option<String>,
}

/// A task of the progress tree as it stood when looked at.
pub struct TaskSnapshot {
    pub name: String,
    pub progress: Option<ProgressSnapshot>,
}

/// A line of progress: a task's name, how far it got, and, for a bounded task,
/// the share done as a fraction `(done, of)`.
#[derive(Clone, Debug)]
pub struct ProgressRow {
    pub name: String,
    pub value: String,
    pub fraction: Option<(usize, usize)>,
}

/// What a progress row shows.
pub struct RowView {
    pub name: Seq<char>,
    pub value: Seq<char>,
    pub fraction: Option<(usize, usize)>,
}

impl View for ProgressRow {
    type V = RowView;

    open spec fn view(&self) -> RowView {
        RowView { name: self.name@, value: self.value@, fraction: self.fraction }
    }
}

/// The progress of a clone.
#[derive(Clone, Debug)]
pub enum CloneProgress {
    Starting,
    Running(Vec<ProgressRow>),
    Complete,
    Failed(String),
}

/// What the progress of a clone shows.
pub enum ProgressView {
    Starting,
    Running(Seq<RowView>),
    Complete,
    Failed(Seq<char>),
}

/// The views of a list of rows.
pub open spec fn rows_view(rows: Seq<ProgressRow>) -> Seq<RowView> {
    rows.map_values(|r: ProgressRow| r@)
}

impl View for CloneProgress {
    type V = ProgressView;

    open spec fn view(&self) -> ProgressView {
        match self {
            CloneProgress::Starting => ProgressView::Starting,
            CloneProgress::Running(rows) => ProgressView::Running(rows_view(rows@)),
            CloneProgress::Complete => ProgressView::Complete,
            CloneProgress::Failed(message) => ProgressView::Failed(message@),
        }
    }
}

/// How far a task got: in its own unit when it has one, else the step, and the
/// step at which it is done after a slash when that is known.
pub open spec fn spec_value(p: ProgressSnapshot) -> Seq<char> {
    match p.unit_text {
        Some(text) => text@,
        None => match p.done_at {
            Some(maximum) => spec_decimal(p.step as nat) + seq!['/'] + spec_decimal(maximum as nat),
            None => spec_decimal(p.step as nat),
        },
    }
}

/// The share of a bounded task that is done, capped at the whole.
pub open spec fn spec_fraction(p: ProgressSnapshot) -> Option<(usize, usize)> {
    match p.done_at {
        Some(maximum) => if maximum > 0 {
            Some((if p.step < maximum { p.step } else { maximum }, maximum))
        } else {
            None
        },
        None => None,
    }
}

/// The row of a task that reports progress; none for a task that only groups others.
pub open spec fn spec_row(t: TaskSnapshot) -> Option<RowView> {
    match t.progress {
        Some(p) => Some(RowView { name: spec_single_line(t.name@), value: spec_value(p), fraction: spec_fraction(p) }),
        None => None,
    }
}

/// The rows shown for a snapshot: the last `MAX_ROWS` of the rows of its tasks, in order.
/// The rows of all the tasks of a snapshot, in order.
pub open spec fn task_rows(tasks: Seq<TaskSnapshot>) -> Seq<RowView> {
    tasks.filter_map(|t: TaskSnapshot| spec_row(t))
}

pub open spec fn spec_rows(tasks: Seq<TaskSnapshot>) -> Seq<RowView> {
    let all = task_rows(tasks);
    if all.len() > MAX_ROWS {
        all.subrange(all.len() - MAX_ROWS, all.len() as int)
    } else {
        all
    }
}

fn value_of(p: &ProgressSnapshot) -> (value: String)
    ensures
        value@ == spec_value(*p),
{
    match &p.unit_text {
        Some(text) => text.clone(),
        None => {
            let mut chars: Vec<char> = Vec::new();
            push_decimal(p.step, &mut chars);
            match p.done_at {
                Some(maximum) => {
                    chars.push('/');
                    push_decimal(maximum, &mut chars);
                },
                None => {},
            }
            proof {
                if p.done_at is Some {
                    assert(chars@ =~= spec_decimal(p.step as nat) + seq!['/'] + spec_decimal(p.done_at->0 as nat));
                } else {
                    assert(chars@ =~= spec_decimal(p.step as nat));
                }
            }
            string_from_chars(&chars)
        },
    }
}

fn row_of(t: &TaskSnapshot) -> (row: Option<ProgressRow>)
    ensures
        match row {
            Some(r) => spec_row(*t) == Some(r@),
            None => spec_row(*t) is None,
        },
{
    match &t.progress {
        Some(p) => {
            let fraction = match p.done_at {
                Some(maximum) => if maximum > 0 {
                    Some((if p.step < maximum { p.step } else { maximum }, maximum))
                } else {
                    None
                },
                None => None,
            };
            Some(ProgressRow { name: single_line(t.name.as_str()), value: value_of(p), fraction })
        },
        None => None,
    }
}

impl CloneProgress {
    /// The progress shown for a snapshot of the progress tree.
    pub fn from_snapshot(tasks: Vec<TaskSnapshot>) -> (progress: CloneProgress)
        ensures
            progress@ == ProgressView::Running(spec_rows(tasks@)),
    {
        let ghost f = |t: TaskSnapshot| spec_row(t);
        let mut rows: Vec<ProgressRow> = Vec::new();
        let n = tasks.len();
        let mut i: usize = 0;
        proof { assert(tasks@.take(0).filter_map(f) =~= Seq::<RowView>::empty()); }
        while i < n
            invariant
                n == tasks@.len(),
                i <= n,
                f == (|t: TaskSnapshot| spec_row(t)),
                rows_view(rows@) == tasks@.take(i as int).filter_map(f),
            decreases n - i,
        {
            let row = row_of(&tasks[i]);
            let ghost before = rows_view(rows@);
            let ghost prefix = tasks@.take(i + 1);
            proof {
                assert(prefix.drop_last() =~= tasks@.take(i as int));
                assert(prefix.last() == tasks@[i as int]);
            }
            match row {
                Some(r) => {
                    rows.push(r);
                    proof { assert(rows_view(rows@) =~= before + seq![spec_row(tasks@[i as int])->0]); }
                },
                None => {},
            }
            proof { assert(rows_view(rows@) =~= prefix.filter_map(f)); }
            i = i + 1;
        }
        proof { assert(tasks@.take(n as int) =~= tasks@); }
        let len = rows.len();
        if len > MAX_ROWS {
            let ghost all = rows_view(rows@);
            let kept = rows.split_off(len - MAX_ROWS);
            proof { assert(rows_view(kept@) =~= all.subrange(all.len() - MAX_ROWS, all.len() as int)); }
            CloneProgress::Running(kept)
        } else {
            CloneProgress::Running(rows)
        }
    }

    /// The progress shown for the clone's progress tree as it stands now: the
    /// rows of a snapshot that `snapshot_tree` took of `tree`, in the snapshot's
    /// own order.
    pub fn from_tree(tree: &Arc<gix::progress::tree::Root>) -> (progress: CloneProgress)
        ensures
            exists|tasks: Seq<TaskSnapshot>| progress@ == ProgressView::Running(spec_rows(tasks)),
            exists|tasks: Vec<TaskSnapshot>|
                #[trigger] is_snapshot_of(tree, tasks) && progress@ == ProgressView::Running(spec_rows(tasks@)),
    {
        let tasks = snapshot_tree(tree);
        assert(is_snapshot_of(tree, tasks));
        CloneProgress::from_snapshot(tasks)
    }
}

/// `tasks` is a snapshot that `snapshot_tree` can take of `tree`: a list that a
/// call of it on `tree` returns.
pub closed spec fn is_snapshot_of(tree: &Arc<gix::progress::tree::Root>, tasks: Vec<TaskSnapshot>) -> bool {
    call_ensures(snapshot_tree, (tree,), tasks)
}

/// The progress tree of a clone.
#[verifier::external_type_specification]
#[verifier::external_body]
pub struct ExProgressRoot(gix::progress::tree::Root);

/// Trusted: calls `gix::progress::tree::Root::sorted_snapshot` and reads each task
/// of the snapshot as it stands: its name, and for a task with progress the step
/// (a live counter), the step at which it is done, and that step written by the
/// task's unit (`Unit::display` without throughput). The tasks come in the
/// snapshot's order. Nothing is claimed of the result: the tree changes while the
/// clone runs.
#[verifier::external_body]
fn snapshot_tree(tree: &Arc<gix::progress::tree::Root>) -> (tasks: Vec<TaskSnapshot>)
{
    let mut snapshot = Vec::new();
    tree.sorted_snapshot(&mut snapshot);
    snapshot.into_iter().map(|(_, task)| TaskSnapshot {
        name: task.name,
        progress: task.progress.map(|value| {
            let step = value.step.load(std::sync::atomic::Ordering::Relaxed);
            ProgressSnapshot {
                step,
                done_at: value.done_at,
                unit_text: value.unit.map(|unit| unit.display(step, value.done_at, None).to_string()),
            }
        }),
    }).collect()
}

/// The rows shown for any snapshot are at most `MAX_ROWS`, each named by one
/// bounded line, and a bounded task never shows more than all of its work done.
pub proof fn lemma_rows_are_bounded(tasks: Seq<TaskSnapshot>)
    ensures
        spec_rows(tasks).len() <= MAX_ROWS,
        forall|i: int| 0 <= i < spec_rows(tasks).len() ==> {
            let row = #[trigger] spec_rows(tasks)[i];
            &&& !row.name.contains('\n')
            &&& row.name.len() <= MAX_NAME_CHARACTERS + 1
            &&& (row.fraction matches Some((done, of)) ==> 0 < of && done <= of)
        },
{
    let f = |t: TaskSnapshot| spec_row(t);
    let all = tasks.filter_map(f);
    let rows = spec_rows(tasks);
    assert forall|i: int| 0 <= i < rows.len() implies {
        let row = #[trigger] rows[i];
        &&& !row.name.contains('\n')
        &&& row.name.len() <= MAX_NAME_CHARACTERS + 1
        &&& (row.fraction matches Some((done, of)) ==> 0 < of && done <= of)
    } by {
        let j = if all.len() > MAX_ROWS { i + all.len() - MAX_ROWS } else { i };
        assert(rows[i] == all[j]);
        assert(all.contains(all[j]));
        tasks.lemma_filter_map_contains(f, all[j]);
        let t = choose|t: TaskSnapshot| #[trigger] tasks.contains(t) && f(t) == Some(all[j]);
        lemma_single_line_is_bounded(t.name@);
    }
}

/// The tasks of a snapshot that report progress, in snapshot order.
pub open spec fn tasks_with_progress(tasks: Seq<TaskSnapshot>) -> Seq<TaskSnapshot> {
    tasks.filter(|t: TaskSnapshot| t.progress is Some)
}

proof fn lemma_rows_follow_tasks_with_progress(tasks: Seq<TaskSnapshot>)
    ensures
        task_rows(tasks).len() == tasks_with_progress(tasks).len(),
        forall|j: int| 0 <= j < tasks_with_progress(tasks).len() ==>
            Some(#[trigger] task_rows(tasks)[j])
                == spec_row(tasks_with_progress(tasks)[j]),
    decreases tasks.len(),
{
    reveal(Seq::filter);
    if tasks.len() > 0 {
        let rest = tasks.drop_last();
        lemma_rows_follow_tasks_with_progress(rest);
        let f = |t: TaskSnapshot| spec_row(t);
        let all = tasks.filter_map(f);
        let before = rest.filter_map(f);
        let shown = tasks_with_progress(tasks);
        let shown_before = tasks_with_progress(rest);
        assert(shown_before == rest.filter(|t: TaskSnapshot| t.progress is Some));
        if tasks.last().progress is Some {
            assert(shown == shown_before.push(tasks.last()));
            assert(all == before + seq![spec_row(tasks.last())->0]);
            assert forall|j: int| 0 <= j < shown.len() implies
                Some(#[trigger] all[j]) == spec_row(shown[j]) by {
                if j < shown_before.len() {
                    assert(all[j] == before[j]);
                    assert(shown[j] == shown_before[j]);
                }
            }
        } else {
            assert(shown == shown_before);
            assert(all == before);
        }
    }
}

/// The rows shown for a snapshot belong to its tasks that report progress, and
/// only to them: one row for each of the last `MAX_ROWS` such tasks, in snapshot
/// order. A row shows the task's name on one line; how far the task got, in its
/// own unit when it has one (whether or not its end is known), else as the step,
/// followed by `/` and the step at which it is done when that is known; and, for a
/// task with a known end above zero, the share done, capped at the whole.
pub proof fn lemma_rows_show_the_last_tasks_with_progress(tasks: Seq<TaskSnapshot>)
    ensures
        ({
            let shown = tasks_with_progress(tasks);
            let rows = spec_rows(tasks);
            &&& rows.len() == if shown.len() > MAX_ROWS { MAX_ROWS as int } else { shown.len() as int }
            &&& forall|i: int| #![trigger rows[i]] 0 <= i < rows.len() ==> {
                let t = shown[shown.len() - rows.len() + i];
                let p = t.progress->0;
                &&& t.progress is Some
                &&& rows[i].name == spec_single_line(t.name@)
                &&& (p.unit_text matches Some(text) ==> rows[i].value == text@)
                &&& (p.unit_text is None && p.done_at is None ==> rows[i].value == spec_decimal(p.step as nat))
                &&& (p.unit_text is None && p.done_at is Some ==>
                        rows[i].value == spec_decimal(p.step as nat) + "/"@ + spec_decimal(p.done_at->0 as nat))
                &&& (p.done_at is Some && p.done_at->0 > 0 ==>
                        rows[i].fraction == Some((if p.step < p.done_at->0 { p.step } else { p.done_at->0 }, p.done_at->0)))
                &&& (p.done_at is None || p.done_at->0 == 0 ==> rows[i].fraction is None)
            }
        }),
{
    reveal_strlit("/");
    let f = |t: TaskSnapshot| spec_row(t);
    let all = tasks.filter_map(f);
    let shown = tasks_with_progress(tasks);
    let rows = spec_rows(tasks);
    lemma_rows_follow_tasks_with_progress(tasks);
    reveal(Seq::filter);
    assert forall|t: TaskSnapshot| #[trigger] shown.contains(t) implies t.progress is Some by {
        tasks.filter_lemma(|t: TaskSnapshot| t.progress is Some);
    }
    assert forall|i: int| #![trigger rows[i]] 0 <= i < rows.len() implies {
        let t = shown[shown.len() - rows.len() + i];
        let p = t.progress->0;
        &&& t.progress is Some
        &&& rows[i].name == spec_single_line(t.name@)
        &&& (p.unit_text matches Some(text) ==> rows[i].value == text@)
        &&& (p.unit_text is None && p.done_at is None ==> rows[i].value == spec_decimal(p.step as nat))
        &&& (p.unit_text is None && p.done_at is Some ==>
                rows[i].value == spec_decimal(p.step as nat) + "/"@ + spec_decimal(p.done_at->0 as nat))
        &&& (p.done_at is Some && p.done_at->0 > 0 ==>
                rows[i].fraction == Some((if p.step < p.done_at->0 { p.step } else { p.done_at->0 }, p.done_at->0)))
        &&& (p.done_at is None || p.done_at->0 == 0 ==> rows[i].fraction is None)
    } by {
        let j = shown.len() - rows.len() + i;
        assert(rows[i] == all[j]);
        assert(Some(all[j]) == spec_row(shown[j]));
        assert(shown.contains(shown[j]));
        assert("/"@ == seq!['/']);
    }
}

/// A line of the progress panel: a text, or a bar filled to the fraction `(done, of)`.
pub enum ProgressLine {
    Text(String),
    Bar(usize, usize),
}

/// What a line of the progress panel shows.
pub enum LineView {
    Text(Seq<char>),
    Bar(usize, usize),
}

impl View for ProgressLine {
    type V = LineView;

    open spec fn view(&self) -> LineView {
        match self {
            ProgressLine::Text(text) => LineView::Text(text@),
            ProgressLine::Bar(done, of) => LineView::Bar(*done, *of),
        }
    }
}

/// The views of a list of lines.
pub open spec fn lines_view(lines: Seq<ProgressLine>) -> Seq<LineView> {
    lines.map_values(|l: ProgressLine| l@)
}

/// A row is shown as `name: value`, followed by a bar for a bounded task.
pub open spec fn spec_row_lines(row: RowView) -> Seq<LineView> {
    seq![LineView::Text(row.name + ": "@ + row.value)] + match row.fraction {
        Some((done, of)) => seq![LineView::Bar(done, of)],
        None => Seq::empty(),
    }
}

/// The lines of a list of rows, in order.
pub open spec fn spec_rows_lines(rows: Seq<RowView>) -> Seq<LineView>
    decreases rows.len(),
{
    if rows.len() == 0 {
        Seq::empty()
    } else {
        spec_rows_lines(rows.drop_last()) + spec_row_lines(rows.last())
    }
}

/// The lines shown below the panel's title for each state of a clone.
pub open spec fn spec_lines(progress: ProgressView) -> Seq<LineView> {
    match progress {
        ProgressView::Starting => seq![LineView::Text("0%"@), LineView::Bar(0, 1)],
        ProgressView::Running(rows) => if rows.len() == 0 {
            seq![LineView::Text("0%"@), LineView::Bar(0, 1)]
        } else {
            spec_rows_lines(rows)
        },
        ProgressView::Complete => seq![LineView::Bar(1, 1), LineView::Text("Clone complete"@)],
        ProgressView::Failed(message) => seq![LineView::Text("Clone failed: "@ + spec_single_line(message))],
    }
}

/// How many of `rows` are of bounded tasks, and so show a bar.
pub open spec fn bounded_rows(rows: Seq<RowView>) -> nat {
    rows.filter(|r: RowView| r.fraction is Some).len()
}

proof fn lemma_bounded_rows_drop_last(rows: Seq<RowView>)
    requires
        rows.len() > 0,
    ensures
        bounded_rows(rows) == bounded_rows(rows.drop_last()) + (if rows.last().fraction is Some { 1nat } else { 0nat }),
{
    reveal(Seq::filter);
}

proof fn lemma_bounded_rows_prefix(rows: Seq<RowView>, i: int)
    requires
        0 <= i < rows.len(),
    ensures
        i + 1 + bounded_rows(rows.take(i)) + (if rows[i].fraction is Some { 1int } else { 0 })
            <= rows.len() + bounded_rows(rows),
    decreases rows.len(),
{
    let rest = rows.drop_last();
    lemma_bounded_rows_drop_last(rows);
    if i < rest.len() {
        lemma_bounded_rows_prefix(rest, i);
        assert(rows.take(i) =~= rest.take(i));
        assert(rest[i] == rows[i]);
    } else {
        assert(rows.take(i) =~= rest);
    }
}

proof fn lemma_rows_lines_layout(rows: Seq<RowView>)
    ensures
        spec_rows_lines(rows).len() == rows.len() + bounded_rows(rows),
        forall|i: int| #![trigger rows[i]] 0 <= i < rows.len() ==> {
            let k = i + bounded_rows(rows.take(i));
            &&& spec_rows_lines(rows)[k] == LineView::Text(rows[i].name + ": "@ + rows[i].value)
            &&& (rows[i].fraction is Some ==>
                    spec_rows_lines(rows)[k + 1] == LineView::Bar((rows[i].fraction->0).0, (rows[i].fraction->0).1))
        },
    decreases rows.len(),
{
    if rows.len() > 0 {
        let rest = rows.drop_last();
        lemma_rows_lines_layout(rest);
        lemma_bounded_rows_drop_last(rows);
        let lines = spec_rows_lines(rows);
        let before = spec_rows_lines(rest);
        let last = rows.last();
        assert(lines == before + spec_row_lines(last));
        assert forall|i: int| #![trigger rows[i]] 0 <= i < rows.len() implies {
            let k = i + bounded_rows(rows.take(i));
            &&& lines[k] == LineView::Text(rows[i].name + ": "@ + rows[i].value)
            &&& (rows[i].fraction is Some ==>
                    lines[k + 1] == LineView::Bar((rows[i].fraction->0).0, (rows[i].fraction->0).1))
        } by {
            if i < rest.len() {
                assert(rows.take(i) =~= rest.take(i));
                assert(rows[i] == rest[i]);
                lemma_bounded_rows_prefix(rest, i);
                let k = i + bounded_rows(rest.take(i));
                assert(lines[k] == before[k]);
                if rows[i].fraction is Some {
                    assert(lines[k + 1] == before[k + 1]);
                }
            } else {
                assert(rows.take(i) =~= rest);
                assert(last == rows[i]);
            }
        }
    }
}

/// The panel of a running clone with rows shows each row in order: its text line
/// `name: value`, directly followed by a bar filled to the row's fraction when
/// the row has one, and by nothing else. So the panel has one line per row and
/// one more per bounded row, and row `i` starts after the lines of the rows
/// before it.
pub proof fn lemma_each_row_shows_its_text_then_its_bar(rows: Seq<RowView>)
    requires
        rows.len() > 0,
    ensures
        ({
            let lines = spec_lines(ProgressView::Running(rows));
            &&& lines.len() == rows.len() + bounded_rows(rows)
            &&& forall|i: int| #![trigger rows[i]] 0 <= i < rows.len() ==> {
                let k = i + bounded_rows(rows.take(i));
                &&& lines[k] == LineView::Text(rows[i].name + ": "@ + rows[i].value)
                &&& (rows[i].fraction is Some ==>
                        lines[k + 1] == LineView::Bar((rows[i].fraction->0).0, (rows[i].fraction->0).1))
                &&& (rows[i].fraction is None && i + 1 < rows.len() ==>
                        lines[k + 1] == LineView::Text(rows[i + 1].name + ": "@ + rows[i + 1].value))
            }
        }),
{
    lemma_rows_lines_layout(rows);
    assert forall|i: int| #![trigger rows[i]] 0 <= i < rows.len() && rows[i].fraction is None && i + 1 < rows.len()
        implies bounded_rows(rows.take(i + 1)) == bounded_rows(rows.take(i)) by {
        reveal(Seq::filter);
        assert(rows.take(i + 1).drop_last() =~= rows.take(i));
        assert(rows.take(i + 1).last() == rows[i]);
    }
    assert forall|i: int| #![trigger rows[i]] 0 <= i < rows.len() && rows[i].fraction is None && i + 1 < rows.len()
        implies spec_rows_lines(rows)[i + bounded_rows(rows.take(i)) + 1]
            == LineView::Text(rows[i + 1].name + ": "@ + rows[i + 1].value) by {
        assert(rows[i + 1] == rows[i + 1]);
    }
}

/// Before any task reports progress the panel shows an empty bar, the same for a
/// clone that is starting and for one whose snapshot has no rows; a complete
/// clone shows a full bar; a failed clone shows one line, `Clone failed: ` and
/// the message kept to one bounded line, which is the message itself when it is
/// short and has no line break.
pub proof fn lemma_panel_without_rows(message: Seq<char>)
    ensures
        spec_lines(ProgressView::Starting) == spec_lines(ProgressView::Running(Seq::empty())),
        spec_lines(ProgressView::Starting).len() == 2,
        spec_lines(ProgressView::Starting)[1] == LineView::Bar(0, 1),
        spec_lines(ProgressView::Complete)[0] == LineView::Bar(1, 1),
        spec_lines(ProgressView::Failed(message)).len() == 1,
        spec_lines(ProgressView::Failed(message))[0] matches LineView::Text(text) && {
            &&& text.take(14) == "Clone failed: "@
            &&& !text.contains('\n')
            &&& text.len() <= 14 + MAX_NAME_CHARACTERS + 1
        },
        message.len() <= MAX_NAME_CHARACTERS && !message.contains('\n') && !message.contains('\r')
            ==> spec_lines(ProgressView::Failed(message))[0] == LineView::Text("Clone failed: "@ + message),
{
    reveal_strlit("Clone failed: ");
    lemma_single_line_is_bounded(message);
    let line = spec_single_line(message);
    let text = "Clone failed: "@ + line;
    assert(text.take(14) =~= "Clone failed: "@);
    assert forall|i: int| 0 <= i < text.len() implies text[i] != '\n' by {
        if i >= 14 {
            assert(text[i] == line[i - 14]);
        }
    }
    if message.len() <= MAX_NAME_CHARACTERS && !message.contains('\n') && !message.contains('\r') {
        assert forall|i: int| 0 <= i < message.len() implies flatten_char(message[i]) == message[i] by {
            assert(message.contains(message[i]));
        }
        assert(line =~= message);
    }
}

fn text_line(parts: Vec<char>) -> (line: ProgressLine)
    ensures
        line@ == LineView::Text(parts@),
{
    ProgressLine::Text(string_from_chars(&parts))
}

impl CloneProgress {
    /// The lines that the progress panel shows below its title.
    pub fn lines(&self) -> (lines: Vec<ProgressLine>)
        ensures
            lines_view(lines@) == spec_lines(self@),
    {
        let mut lines: Vec<ProgressLine> = Vec::new();
        match self {
            CloneProgress::Running(rows) => {
                if rows.len() == 0 {
                    lines.push(ProgressLine::Text("0%".to_owned()));
                    lines.push(ProgressLine::Bar(0, 1));
                    proof { assert(lines_view(lines@) =~= spec_lines(self@)); }
                } else {
                    let n = rows.len();
                    let mut i: usize = 0;
                    proof { assert(lines_view(lines@) =~= spec_rows_lines(rows_view(rows@).take(0))); }
                    while i < n
                        invariant
                            n == rows@.len(),
                            i <= n,
                            lines_view(lines@) == spec_rows_lines(rows_view(rows@).take(i as int)),
                        decreases n - i,
                    {
                        let row = &rows[i];
                        let ghost before = lines_view(lines@);
                        let mut text: Vec<char> = Vec::new();
                        push_str(row.name.as_str(), &mut text);
                        push_str(": ", &mut text);
                        push_str(row.value.as_str(), &mut text);
                        lines.push(text_line(text));
                        match row.fraction {
                            Some((done, of)) => lines.push(ProgressLine::Bar(done, of)),
                            None => {},
                        }
                        proof {
                            let prefix = rows_view(rows@).take(i + 1);
                            assert(prefix.drop_last() =~= rows_view(rows@).take(i as int));
                            assert(prefix.last() == rows@[i as int]@);
                            assert(lines_view(lines@) =~= before + spec_row_lines(rows@[i as int]@));
                        }
                        i = i + 1;
                    }
                    proof { assert(rows_view(rows@).take(n as int) =~= rows_view(rows@)); }
                }
            },
            CloneProgress::Starting => {
                lines.push(ProgressLine::Text("0%".to_owned()));
                lines.push(ProgressLine::Bar(0, 1));
                proof { assert(lines_view(lines@) =~= spec_lines(self@)); }
            },
            CloneProgress::Complete => {
                lines.push(ProgressLine::Bar(1, 1));
                lines.push(ProgressLine::Text("Clone complete".to_owned()));
                proof { assert(lines_view(lines@) =~= spec_lines(self@)); }
            },
            CloneProgress::Failed(message) => {
                let mut text: Vec<char> = Vec::new();
                push_str("Clone failed: ", &mut text);
                let line = single_line(message.as_str());
                push_str(line.as_str(), &mut text);
                lines.push(text_line(text));
                proof { assert(lines_view(lines@) =~= spec_lines(self@)); }
            },
        }
        lines
    }
}

fn rows_equal(a: &Vec<ProgressRow>, b: &Vec<ProgressRow>) -> (equal: bool)
    ensures
        equal == (rows_view(a@) == rows_view(b@)),
{
    if a.len() != b.len() {
        proof {
            assert(rows_view(a@).len() != rows_view(b@).len());
        }
        return false;
    }
    let n = a.len();
    let mut i: usize = 0;
    while i < n
        invariant
            n == a@.len(),
            n == b@.len(),
            i <= n,
            forall|j: int| 0 <= j < i ==> a@[j]@ == b@[j]@,
        decreases n - i,
    {
        let x = &a[i];
        let y = &b[i];
        let same_fraction = match (x.fraction, y.fraction) {
            (Some((d1, o1)), Some((d2, o2))) => d1 == d2 && o1 == o2,
            (None, None) => true,
            _ => false,
        };
        if !(x.name == y.name && x.value == y.value && same_fraction) {
            proof {
                assert(rows_view(a@)[i as int] != rows_view(b@)[i as int]);
            }
            return false;
        }
        i = i + 1;
    }
    proof {
        assert(rows_view(a@) =~= rows_view(b@));
    }
    true
}

impl CloneProgress {
    /// Whether two progress states show the same.
    pub fn same_as(&self, other: &CloneProgress) -> (same: bool)
        ensures
            same == (self@ == other@),
    {
        match (self, other) {
            (CloneProgress::Starting, CloneProgress::Starting) => true,
            (CloneProgress::Complete, CloneProgress::Complete) => true,
            (CloneProgress::Running(a), CloneProgress::Running(b)) => rows_equal(a, b),
            (CloneProgress::Failed(a), CloneProgress::Failed(b)) => *a == *b,
            _ => false,
        }
    }
}

} // verus!
