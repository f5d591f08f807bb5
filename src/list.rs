//! Listing worktrees: one row per record, with its status and upstream, rendered as a
//! table of padded columns.
use vstd::prelude::*;
use crate::error::AppError;
use crate::inventory::{opt_view, RecordModel, WorktreeInfo};
use crate::names::{display_name_of, display_name_with};
use crate::paths::{normalize_path_with, normalized};
use crate::repo::{same_path, same_place};
use crate::text::{chars_of, contains, contains_str, join, string_from, trim, trimmed, views};

verus! {

#[derive(Debug)]
pub struct ListOptions {
    pub json: bool,
}

/// One line of the listing.
#[derive(Debug)]
pub struct DisplayRow {
    pub name: String,
    /// The branch, or `detached`.
    pub branch_display: String,
    pub branch: Option<String>,
    /// The head commit, abbreviated.
    pub head: String,
    /// `clean` or `dirty`.
    pub status: String,
    pub upstream: Option<String>,
    pub abs_path: String,
    pub is_main: bool,
    /// The command runs in this worktree.
    pub is_current: bool,
}

pub struct RowModel {
    pub name: Seq<char>,
    pub branch_display: Seq<char>,
    pub branch: Option<Seq<char>>,
    pub head: Seq<char>,
    pub status: Seq<char>,
    pub upstream: Option<Seq<char>>,
    pub abs_path: Seq<char>,
    pub is_main: bool,
    pub is_current: bool,
}

impl View for DisplayRow {
    type V = RowModel;

    open spec fn view(&self) -> RowModel {
        RowModel {
            name: self.name@,
            branch_display: self.branch_display@,
            branch: opt_view(self.branch),
            head: self.head@,
            status: self.status@,
            upstream: opt_view(self.upstream),
            abs_path: self.abs_path@,
            is_main: self.is_main,
            is_current: self.is_current,
        }
    }
}

pub open spec fn rows_of(v: Seq<DisplayRow>) -> Seq<RowModel> {
    v.map_values(|r: DisplayRow| r@)
}

/// What the backend said when asked for a worktree's upstream.
#[derive(Debug)]
pub enum UpstreamQuery {
    /// The command succeeded with this output.
    Answered(String),
    /// The command failed because no upstream is configured.
    NotConfigured,
    /// The command could not be run; the text says why.
    Failed(String),
}

/// `dirty` when the short status printed anything but white space, else `clean`.
pub open spec fn status_of(status_output: Seq<char>) -> Seq<char> {
    if trim(status_output).len() == 0 {
        "clean"@
    } else {
        "dirty"@
    }
}

pub open spec fn branch_shown(w: RecordModel) -> Seq<char> {
    match w.branch {
        Some(b) => b,
        None => "detached"@,
    }
}

/// The head commit cut to its first eight characters.
pub open spec fn short_head(head: Seq<char>) -> Seq<char> {
    if head.len() <= 8 {
        head
    } else {
        head.subrange(0, 8)
    }
}

/// The row of record `w`, given its status output and upstream.
pub open spec fn row_of(
    w: RecordModel,
    base: Seq<char>,
    current: Seq<char>,
    status_output: Seq<char>,
    upstream: Option<Seq<char>>,
    sep: char,
) -> RowModel {
    RowModel {
        name: display_name_of(w, base, sep),
        branch_display: branch_shown(w),
        branch: w.branch,
        head: short_head(w.head),
        status: status_of(status_output),
        upstream,
        abs_path: normalized(w.path, sep),
        is_main: w.is_main,
        is_current: same_place(w.path, current),
    }
}

pub fn status_label(status_output: &str) -> (r: String)
    ensures
        r@ == status_of(status_output@),
{
    let t = trimmed(status_output);
    if t.as_str().is_empty() {
        String::from_str("clean")
    } else {
        String::from_str("dirty")
    }
}

/// The upstream named by a query: its trimmed output, absent when empty or when none is
/// configured; a query that could not run is a backend error.
pub fn upstream_from(query: UpstreamQuery) -> (r: Result<Option<String>, AppError>)
    ensures
        match query {
            UpstreamQuery::Answered(out) => r matches Ok(u) && opt_view(u) == if trim(out@).len()
                == 0 {
                None
            } else {
                Some(trim(out@))
            },
            UpstreamQuery::NotConfigured => r matches Ok(u) && u is None,
            UpstreamQuery::Failed(m) => r matches Err(e) && e is Git && e.spec_message() == m@,
        },
{
    match query {
        UpstreamQuery::Answered(out) => {
            let t = trimmed(out.as_str());
            if t.as_str().is_empty() {
                Ok(None)
            } else {
                Ok(Some(t))
            }
        },
        UpstreamQuery::NotConfigured => Ok(None),
        UpstreamQuery::Failed(m) => Err(AppError::Git(m)),
    }
}

/// Whether the diagnostics of a failed upstream query say that there is no upstream:
/// none is configured for the branch, or the checkout is on no branch at all.
pub open spec fn says_no_upstream(stderr: Seq<char>) -> bool {
    contains(stderr, "no upstream configured"@) || contains(stderr, "does not point to a branch"@)
}

/// Sorts a failed upstream query: no upstream when its diagnostics `stderr` say so,
/// otherwise a failure described by `description`.
pub fn classify_upstream_failure(stderr: &str, description: String) -> (r: UpstreamQuery)
    ensures
        says_no_upstream(stderr@) ==> r is NotConfigured,
        !says_no_upstream(stderr@) ==> (r matches UpstreamQuery::Failed(m) && m@ == description@),
{
    if contains_str(stderr, "no upstream configured") || contains_str(
        stderr,
        "does not point to a branch",
    ) {
        UpstreamQuery::NotConfigured
    } else {
        UpstreamQuery::Failed(description)
    }
}

pub fn render_branch(info: &WorktreeInfo) -> (r: String)
    ensures
        r@ == branch_shown(info@),
{
    match &info.branch {
        Some(b) => b.clone(),
        None => String::from_str("detached"),
    }
}

pub fn render_head(head: &str) -> (r: String)
    ensures
        r@ == short_head(head@),
{
    let v = chars_of(head);
    if v.len() <= 8 {
        assert(v@.subrange(0, v@.len() as int) =~= v@);
        string_from(&v, 0, v.len())
    } else {
        string_from(&v, 0, 8)
    }
}

/// The row of `info`.
pub fn build_row(
    info: &WorktreeInfo,
    base_dir: &str,
    current_worktree: &str,
    status_output: &str,
    upstream: Option<String>,
    sep: char,
) -> (r: DisplayRow)
    ensures
        r@ == row_of(info@, base_dir@, current_worktree@, status_output@, opt_view(upstream), sep),
{
    DisplayRow {
        name: display_name_with(info, base_dir, sep),
        branch_display: render_branch(info),
        branch: crate::inventory::clone_opt(&info.branch),
        head: render_head(info.head.as_str()),
        status: status_label(status_output),
        upstream,
        abs_path: normalize_path_with(info.path.as_str(), sep),
        is_main: info.is_main,
        is_current: same_path(info.path.as_str(), current_worktree),
    }
}

/// The rows of all records, in inventory order; `statuses[i]` and `upstreams[i]` are what
/// the backend said of record `i`.
pub fn build_rows(
    worktrees: &Vec<WorktreeInfo>,
    base_dir: &str,
    current_worktree: &str,
    statuses: &Vec<String>,
    upstreams: &Vec<Option<String>>,
    sep: char,
) -> (r: Vec<DisplayRow>)
    requires
        statuses@.len() == worktrees@.len(),
        upstreams@.len() == worktrees@.len(),
    ensures
        r@.len() == worktrees@.len(),
        forall|i: int|
            0 <= i < r@.len() ==> (#[trigger] r@[i])@ == row_of(
                worktrees@[i]@,
                base_dir@,
                current_worktree@,
                statuses@[i]@,
                opt_view(upstreams@[i]),
                sep,
            ),
{
    let mut rows: Vec<DisplayRow> = Vec::new();
    let ghost given = upstreams@;
    let mut i: usize = 0;
    while i < worktrees.len()
        invariant
            i <= worktrees@.len(),
            statuses@.len() == worktrees@.len(),
            upstreams@.len() == worktrees@.len(),
            given == upstreams@,
            rows@.len() == i,
            forall|k: int|
                0 <= k < i ==> (#[trigger] rows@[k])@ == row_of(
                    worktrees@[k]@,
                    base_dir@,
                    current_worktree@,
                    statuses@[k]@,
                    opt_view(given[k]),
                    sep,
                ),
        decreases worktrees@.len() - i,
    {
        let upstream = crate::inventory::clone_opt(&upstreams[i]);
        let row = build_row(
            &worktrees[i],
            base_dir,
            current_worktree,
            statuses[i].as_str(),
            upstream,
            sep,
        );
        rows.push(row);
        i += 1;
    }
    rows
}

// ---------------------------------------------------------------- table

/// `s` padded with `fill` on the right to `w` characters.
pub open spec fn pad(s: Seq<char>, w: nat, fill: char) -> Seq<char> {
    if s.len() >= w {
        s
    } else {
        s + Seq::new((w - s.len()) as nat, |i: int| fill)
    }
}

/// The name column: the display name, with `*` on the current worktree.
pub open spec fn shown_name(r: RowModel) -> Seq<char> {
    if r.is_current {
        r.name.push('*')
    } else {
        r.name
    }
}

pub open spec fn upstream_cell(r: RowModel) -> Seq<char> {
    match r.upstream {
        Some(u) => u,
        None => "-"@,
    }
}

pub open spec fn row_cells(r: RowModel) -> Seq<Seq<char>> {
    seq![shown_name(r), r.branch_display, r.head, r.status, upstream_cell(r), r.abs_path]
}

pub open spec fn header_cells() -> Seq<Seq<char>> {
    seq!["PATH"@, "BRANCH"@, "HEAD"@, "STATUS"@, "UPSTREAM"@, "ABS_PATH"@]
}

/// The longest cell of column `c` over `rows`.
pub open spec fn longest(rows: Seq<RowModel>, c: int) -> nat
    decreases rows.len(),
{
    if rows.len() == 0 {
        0
    } else {
        let m = longest(rows.drop_last(), c);
        let l = row_cells(rows.last())[c].len();
        if l > m {
            l
        } else {
            m
        }
    }
}

/// The width of column `c`: eight for the head, else its longest cell or heading.
pub open spec fn column_width(rows: Seq<RowModel>, c: int) -> nat {
    if c == 2 {
        8
    } else if longest(rows, c) > header_cells()[c].len() {
        longest(rows, c)
    } else {
        header_cells()[c].len()
    }
}

pub open spec fn widths(rows: Seq<RowModel>) -> Seq<nat> {
    Seq::new(6, |c: int| column_width(rows, c))
}

/// One line of the table: the cells padded to their widths, separated by spaces.
pub open spec fn table_line(cells: Seq<Seq<char>>, ws: Seq<nat>, fill: char) -> Seq<char> {
    join(Seq::new(cells.len(), |i: int| pad(cells[i], ws[i], fill)), " "@) + "\n"@
}

pub open spec fn body_lines(rows: Seq<RowModel>, ws: Seq<nat>) -> Seq<char>
    decreases rows.len(),
{
    if rows.len() == 0 {
        Seq::empty()
    } else {
        body_lines(rows.drop_last(), ws) + table_line(row_cells(rows.last()), ws, ' ')
    }
}

/// The table: headings, a rule of dashes, and a line per row.
pub open spec fn table_text(rows: Seq<RowModel>) -> Seq<char> {
    let ws = widths(rows);
    table_line(header_cells(), ws, ' ') + table_line(Seq::new(6, |i: int| Seq::<char>::empty()), ws, '-')
        + body_lines(rows, ws)
}

fn char_len(s: &str) -> (r: usize)
    ensures
        r == s@.len(),
{
    let v = chars_of(s);
    v.len()
}

fn padded(s: &str, w: usize, fill: char) -> (r: String)
    ensures
        r@ == pad(s@, w as nat, fill),
{
    let mut r = s.to_owned();
    let n = char_len(s);
    let mut k = n;
    assert(s@ + Seq::new(0, |i: int| fill) =~= s@);
    while k < w
        invariant
            n == s@.len(),
            n <= k,
            w > n ==> k <= w,
            w <= n ==> k == n,
            r@ == s@ + Seq::new((k - n) as nat, |i: int| fill),
        decreases w - k,
    {
        r.push(fill);
        assert(r@ =~= s@ + Seq::new((k + 1 - n) as nat, |i: int| fill));
        k += 1;
    }
    proof {
        if n >= w {
            assert(k == n);
            assert(r@ =~= s@);
        } else {
            assert(k == w);
        }
    }
    r
}

fn row_cell(row: &DisplayRow, c: usize) -> (r: String)
    requires
        c < 6,
    ensures
        r@ == row_cells(row@)[c as int],
{
    if c == 0 {
        let mut name = row.name.clone();
        if row.is_current {
            name.push('*');
        }
        name
    } else if c == 1 {
        row.branch_display.clone()
    } else if c == 2 {
        row.head.clone()
    } else if c == 3 {
        row.status.clone()
    } else if c == 4 {
        match &row.upstream {
            Some(u) => u.clone(),
            None => String::from_str("-"),
        }
    } else {
        row.abs_path.clone()
    }
}

fn header_cell(c: usize) -> (r: &'static str)
    requires
        c < 6,
    ensures
        r@ == header_cells()[c as int],
{
    if c == 0 {
        "PATH"
    } else if c == 1 {
        "BRANCH"
    } else if c == 2 {
        "HEAD"
    } else if c == 3 {
        "STATUS"
    } else if c == 4 {
        "UPSTREAM"
    } else {
        "ABS_PATH"
    }
}

/// The width of column `c` for `rows`.
fn width_of(rows: &Vec<DisplayRow>, c: usize) -> (r: usize)
    requires
        c < 6,
    ensures
        r == column_width(rows_of(rows@), c as int),
{
    if c == 2 {
        return 8;
    }
    let ghost rs = rows_of(rows@);
    let mut m: usize = 0;
    let mut i: usize = 0;
    assert(rs.subrange(0, 0) =~= Seq::<RowModel>::empty());
    while i < rows.len()
        invariant
            i <= rows@.len(),
            c < 6,
            rs == rows_of(rows@),
            m == longest(rs.subrange(0, i as int), c as int),
        decreases rows@.len() - i,
    {
        let cell = row_cell(&rows[i], c);
        let l = char_len(cell.as_str());
        let ghost prefix = rs.subrange(0, i + 1);
        assert(prefix.drop_last() =~= rs.subrange(0, i as int));
        assert(prefix.last() == rows@[i as int]@);
        if l > m {
            m = l;
        }
        i += 1;
    }
    assert(rs.subrange(0, rows@.len() as int) =~= rs);
    let h = char_len(header_cell(c));
    if m > h {
        m
    } else {
        h
    }
}

/// One table line from six cells and six widths.
fn render_line(cells: &Vec<String>, ws: &Vec<usize>, fill: char) -> (r: String)
    requires
        cells@.len() == 6,
        ws@.len() == 6,
    ensures
        r@ == table_line(views(cells@), ws@.map_values(|w: usize| w as nat), fill),
{
    let ghost wn = ws@.map_values(|w: usize| w as nat);
    let ghost target = Seq::new(6, |i: int| pad(views(cells@)[i], wn[i], fill));
    let mut parts: Vec<String> = Vec::new();
    let mut i: usize = 0;
    while i < 6
        invariant
            i <= 6,
            cells@.len() == 6,
            ws@.len() == 6,
            wn == ws@.map_values(|w: usize| w as nat),
            target == Seq::new(6, |i: int| pad(views(cells@)[i], wn[i], fill)),
            views(parts@) == target.subrange(0, i as int),
        decreases 6 - i,
    {
        let p = padded(cells[i].as_str(), ws[i], fill);
        let ghost before = views(parts@);
        parts.push(p);
        assert(views(cells@)[i as int] == cells@[i as int]@);
        assert(wn[i as int] == ws@[i as int] as nat);
        assert(target[i as int] == pad(cells@[i as int]@, ws@[i as int] as nat, fill));
        assert(views(parts@) =~= before.push(p@));
        assert(views(parts@) =~= target.subrange(0, i + 1));
        i += 1;
    }
    assert(target.subrange(0, 6) =~= target);
    let mut r = crate::text::join_strings(&parts, " ");
    r.push('\n');
    proof {
        reveal_strlit("\n");
    }
    assert(r@ =~= table_line(views(cells@), wn, fill));
    r
}

/// The listing as a table of padded columns, one line per row.
pub fn render_table(rows: &Vec<DisplayRow>) -> (r: String)
    ensures
        r@ == table_text(rows_of(rows@)),
{
    let ghost rs = rows_of(rows@);
    let mut ws: Vec<usize> = Vec::new();
    let mut c: usize = 0;
    while c < 6
        invariant
            c <= 6,
            rs == rows_of(rows@),
            ws@.len() == c,
            forall|k: int| 0 <= k < c ==> ws@[k] as nat == column_width(rs, k),
        decreases 6 - c,
    {
        let w = width_of(rows, c);
        ws.push(w);
        c += 1;
    }
    let ghost wn = ws@.map_values(|w: usize| w as nat);
    assert(wn =~= widths(rs));
    let mut header: Vec<String> = Vec::new();
    let mut blank: Vec<String> = Vec::new();
    let mut c: usize = 0;
    while c < 6
        invariant
            c <= 6,
            header@.len() == c,
            blank@.len() == c,
            forall|k: int| 0 <= k < c ==> header@[k]@ == header_cells()[k],
            forall|k: int| 0 <= k < c ==> blank@[k]@ == Seq::<char>::empty(),
        decreases 6 - c,
    {
        header.push(header_cell(c).to_owned());
        blank.push(String::new());
        c += 1;
    }
    assert(views(header@) =~= header_cells());
    assert(views(blank@) =~= Seq::new(6, |i: int| Seq::<char>::empty()));
    let mut out = render_line(&header, &ws, ' ');
    let rule = render_line(&blank, &ws, '-');
    out.append(rule.as_str());
    let ghost head_text = out@;
    let mut i: usize = 0;
    assert(rs.subrange(0, 0) =~= Seq::<RowModel>::empty());
    while i < rows.len()
        invariant
            i <= rows@.len(),
            ws@.len() == 6,
            rs == rows_of(rows@),
            wn == ws@.map_values(|w: usize| w as nat),
            wn == widths(rs),
            out@ == head_text + body_lines(rs.subrange(0, i as int), wn),
        decreases rows@.len() - i,
    {
        let mut cells: Vec<String> = Vec::new();
        let mut c: usize = 0;
        while c < 6
            invariant
                c <= 6,
                i < rows@.len(),
                cells@.len() == c,
                forall|k: int| 0 <= k < c ==> cells@[k]@ == row_cells(rows@[i as int]@)[k],
            decreases 6 - c,
        {
            cells.push(row_cell(&rows[i], c));
            c += 1;
        }
        assert(views(cells@) =~= row_cells(rows@[i as int]@));
        let line = render_line(&cells, &ws, ' ');
        let ghost prefix = rs.subrange(0, i + 1);
        assert(prefix.drop_last() =~= rs.subrange(0, i as int));
        assert(prefix.last() == rows@[i as int]@);
        out.append(line.as_str());
        i += 1;
    }
    assert(rs.subrange(0, rows@.len() as int) =~= rs);
    out
}

} // verus!
