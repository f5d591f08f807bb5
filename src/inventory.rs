//! The worktree inventory: records, and the parser of the backend's porcelain listing.
//!
//! The listing is line oriented. A record starts at a `worktree <path>` line and ends at a
//! blank line, at the next `worktree` line, or at the end of the text. Inside a record,
//! `HEAD <commit>`, `branch refs/heads/<name>`, `detached`, `locked [reason]` and
//! `prunable [reason]` lines fill in its fields; other lines are ignored.
use vstd::prelude::*;
use crate::text::{chars_equal, chars_of, string_from, trim, trim_end, trimmed, trimmed_end};

verus! {

/// One checkout of the repository, as the backend reports it.
#[derive(Debug)]
pub struct WorktreeInfo {
    pub path: String,
    pub head: String,
    /// Short branch name; absent when the checkout is detached.
    pub branch: Option<String>,
    /// The repository's primary checkout, always listed first.
    pub is_main: bool,
    pub is_detached: bool,
    pub locked: Option<String>,
    pub prunable: Option<String>,
}

/// The mathematical content of a [`WorktreeInfo`].
pub struct RecordModel {
    pub path: Seq<char>,
    pub head: Seq<char>,
    pub branch: Option<Seq<char>>,
    pub is_main: bool,
    pub is_detached: bool,
    pub locked: Option<Seq<char>>,
    pub prunable: Option<Seq<char>>,
}

pub open spec fn opt_view(o: Option<String>) -> Option<Seq<char>> {
    match o {
        Some(s) => Some(s@),
        None => None,
    }
}

impl View for WorktreeInfo {
    type V = RecordModel;

    open spec fn view(&self) -> RecordModel {
        RecordModel {
            path: self.path@,
            head: self.head@,
            branch: opt_view(self.branch),
            is_main: self.is_main,
            is_detached: self.is_detached,
            locked: opt_view(self.locked),
            prunable: opt_view(self.prunable),
        }
    }
}

/// The models of a list of records.
pub open spec fn records(v: Seq<WorktreeInfo>) -> Seq<RecordModel> {
    v.map_values(|w: WorktreeInfo| w@)
}

pub fn clone_opt(o: &Option<String>) -> (r: Option<String>)
    ensures
        opt_view(r) == opt_view(*o),
{
    match o {
        Some(s) => Some(s.clone()),
        None => None,
    }
}

impl WorktreeInfo {
    /// A copy of this record.
    pub fn duplicate(&self) -> (r: WorktreeInfo)
        ensures
            r@ == self@,
    {
        WorktreeInfo {
            path: self.path.clone(),
            head: self.head.clone(),
            branch: clone_opt(&self.branch),
            is_main: self.is_main,
            is_detached: self.is_detached,
            locked: clone_opt(&self.locked),
            prunable: clone_opt(&self.prunable),
        }
    }
}

// ---------------------------------------------------------------- model of the parser

/// `s` cut at every occurrence of `c`, reading from the left with the pieces `done`
/// found and the open piece `cur`.
pub open spec fn split_from(done: Seq<Seq<char>>, cur: Seq<char>, s: Seq<char>, c: char) -> Seq<
    Seq<char>,
>
    decreases s.len(),
{
    if s.len() == 0 {
        done.push(cur)
    } else if s[0] == c {
        split_from(done.push(cur), Seq::empty(), s.drop_first(), c)
    } else {
        split_from(done, cur.push(s[0]), s.drop_first(), c)
    }
}

/// Cutting keeps what was found and adds at least one piece.
pub proof fn lemma_split_grows(done: Seq<Seq<char>>, cur: Seq<char>, s: Seq<char>, c: char)
    ensures
        split_from(done, cur, s, c).len() > done.len(),
    decreases s.len(),
{
    if s.len() > 0 {
        if s[0] == c {
            lemma_split_grows(done.push(cur), Seq::empty(), s.drop_first(), c);
        } else {
            lemma_split_grows(done, cur.push(s[0]), s.drop_first(), c);
        }
    }
}

/// The lines of `text`: the pieces between line feeds.
pub open spec fn lines_of(text: Seq<char>) -> Seq<Seq<char>> {
    split_from(Seq::empty(), Seq::empty(), text, '\n')
}

/// A record while its lines are read.
pub struct PartialModel {
    pub path: Option<Seq<char>>,
    pub head: Option<Seq<char>>,
    pub branch: Option<Seq<char>>,
    pub is_detached: bool,
    pub locked: Option<Seq<char>>,
    pub prunable: Option<Seq<char>>,
}

pub open spec fn empty_partial() -> PartialModel {
    PartialModel {
        path: None,
        head: None,
        branch: None,
        is_detached: false,
        locked: None,
        prunable: None,
    }
}

/// The record that a partial record becomes, if it has a path.
pub open spec fn finish_model(p: PartialModel) -> Option<RecordModel> {
    match p.path {
        Some(path) => Some(
            RecordModel {
                path,
                head: match p.head {
                    Some(h) => h,
                    None => Seq::empty(),
                },
                branch: if p.is_detached {
                    None
                } else {
                    p.branch
                },
                is_main: false,
                is_detached: p.is_detached,
                locked: p.locked,
                prunable: p.prunable,
            },
        ),
        None => None,
    }
}

/// `acc` with the record of `p` appended, if there is one.
pub open spec fn emit(acc: Seq<RecordModel>, p: PartialModel) -> Seq<RecordModel> {
    match finish_model(p) {
        Some(r) => acc.push(r),
        None => acc,
    }
}

/// The rest of `line` after `prefix`, if it starts with it.
pub open spec fn after(line: Seq<char>, prefix: Seq<char>) -> Option<Seq<char>> {
    if prefix.is_prefix_of(line) {
        Some(line.skip(prefix.len() as int))
    } else {
        None
    }
}

/// A line inside a record, applied to it.
pub open spec fn apply_line(p: PartialModel, line: Seq<char>) -> PartialModel {
    if after(line, "HEAD "@) is Some {
        PartialModel { head: after(line, "HEAD "@), ..p }
    } else if after(line, "branch refs/heads/"@) is Some {
        PartialModel { branch: after(line, "branch refs/heads/"@), ..p }
    } else if line == "detached"@ {
        PartialModel { is_detached: true, ..p }
    } else if after(line, "locked "@) is Some {
        PartialModel { locked: Some(trim(after(line, "locked "@)->0)), ..p }
    } else if line == "locked"@ {
        PartialModel { locked: Some(Seq::empty()), ..p }
    } else if after(line, "prunable "@) is Some {
        PartialModel { prunable: Some(trim(after(line, "prunable "@)->0)), ..p }
    } else if line == "prunable"@ {
        PartialModel { prunable: Some(Seq::empty()), ..p }
    } else {
        p
    }
}

/// The parser's state after one more line, whose trailing white space is already gone.
pub open spec fn step(acc: Seq<RecordModel>, p: PartialModel, line: Seq<char>) -> (
    Seq<RecordModel>,
    PartialModel,
) {
    if line.len() == 0 {
        (emit(acc, p), empty_partial())
    } else if after(line, "worktree "@) is Some {
        (emit(acc, p), PartialModel { path: after(line, "worktree "@), ..empty_partial() })
    } else {
        (acc, apply_line(p, line))
    }
}

/// The parser's state after `lines`.
pub open spec fn parse_state(lines: Seq<Seq<char>>) -> (Seq<RecordModel>, PartialModel)
    decreases lines.len(),
{
    if lines.len() == 0 {
        (Seq::empty(), empty_partial())
    } else {
        let (acc, p) = parse_state(lines.drop_last());
        step(acc, p, trim_end(lines.last()))
    }
}

/// `rs` with its first record marked as the primary checkout.
pub open spec fn mark_main(rs: Seq<RecordModel>) -> Seq<RecordModel> {
    if rs.len() > 0 {
        rs.update(0, RecordModel { is_main: true, ..rs[0] })
    } else {
        rs
    }
}

/// The records that the listing `text` describes, in order.
pub open spec fn parse_listing(text: Seq<char>) -> Seq<RecordModel> {
    let (acc, p) = parse_state(lines_of(text));
    mark_main(emit(acc, p))
}

// ---------------------------------------------------------------- parser

/// Cuts `text` at its line feeds.
pub fn split_lines(text: &str) -> (r: Vec<String>)
    ensures
        crate::text::views(r@) == lines_of(text@),
{
    let v = chars_of(text);
    let mut done: Vec<String> = Vec::new();
    let mut cur: Vec<char> = Vec::new();
    let mut i: usize = 0;
    assert(crate::text::views(done@) =~= Seq::<Seq<char>>::empty());
    assert(cur@ =~= Seq::<char>::empty());
    assert(v@.subrange(0, v@.len() as int) =~= v@);
    while i < v.len()
        invariant
            i <= v@.len(),
            v@ == text@,
            split_from(crate::text::views(done@), cur@, v@.subrange(i as int, v@.len() as int), '\n')
                == lines_of(text@),
        decreases v@.len() - i,
    {
        let c = v[i];
        assert(v@.subrange(i as int, v@.len() as int).drop_first() =~= v@.subrange(
            i + 1,
            v@.len() as int,
        ));
        if c == '\n' {
            let piece = string_from(&cur, 0, cur.len());
            assert(cur@.subrange(0, cur@.len() as int) =~= cur@);
            let ghost before = crate::text::views(done@);
            done.push(piece);
            assert(crate::text::views(done@) =~= before.push(cur@));
            cur = Vec::new();
        } else {
            cur.push(c);
        }
        i += 1;
    }
    let piece = string_from(&cur, 0, cur.len());
    assert(cur@.subrange(0, cur@.len() as int) =~= cur@);
    let ghost before = crate::text::views(done@);
    done.push(piece);
    assert(crate::text::views(done@) =~= before.push(cur@));
    done
}

/// The rest of `line` after `prefix`, if it starts with it.
fn strip_prefix(line: &Vec<char>, prefix: &str) -> (r: Option<String>)
    ensures
        opt_view(r) == after(line@, prefix@),
{
    let p = chars_of(prefix);
    if p.len() > line.len() {
        return None;
    }
    let mut i: usize = 0;
    while i < p.len()
        invariant
            p@ == prefix@,
            p@.len() <= line@.len(),
            i <= p@.len(),
            forall|k: int| 0 <= k < i ==> p@[k] == line@[k],
        decreases p@.len() - i,
    {
        if p[i] != line[i] {
            assert(!p@.is_prefix_of(line@)) by {
                assert(line@.subrange(0, p@.len() as int)[i as int] == line@[i as int]);
            }
            return None;
        }
        i += 1;
    }
    assert(line@.subrange(0, p@.len() as int) =~= p@);
    let rest = string_from(line, p.len(), line.len());
    assert(rest@ =~= line@.skip(p@.len() as int));
    Some(rest)
}

/// Whether `line` is exactly `word`.
fn is_word(line: &Vec<char>, word: &str) -> (r: bool)
    ensures
        r == (line@ == word@),
{
    let w = chars_of(word);
    chars_equal(line, &w)
}

/// A record while its lines are read.
struct PartialWorktree {
    path: Option<String>,
    head: Option<String>,
    branch: Option<String>,
    is_detached: bool,
    locked: Option<String>,
    prunable: Option<String>,
}

impl View for PartialWorktree {
    type V = PartialModel;

    closed spec fn view(&self) -> PartialModel {
        PartialModel {
            path: opt_view(self.path),
            head: opt_view(self.head),
            branch: opt_view(self.branch),
            is_detached: self.is_detached,
            locked: opt_view(self.locked),
            prunable: opt_view(self.prunable),
        }
    }
}

impl PartialWorktree {
    fn new() -> (r: PartialWorktree)
        ensures
            r@ == empty_partial(),
    {
        PartialWorktree {
            path: None,
            head: None,
            branch: None,
            is_detached: false,
            locked: None,
            prunable: None,
        }
    }

    /// The record this becomes, if it has a path; a detached record has no branch.
    fn finish(self) -> (r: Option<WorktreeInfo>)
        ensures
            match r {
                Some(w) => finish_model(self@) == Some(w@),
                None => finish_model(self@) is None,
            },
    {
        let path = match self.path {
            Some(p) => p,
            None => return None,
        };
        let head = match self.head {
            Some(h) => h,
            None => String::new(),
        };
        let branch = if self.is_detached {
            None
        } else {
            self.branch
        };
        Some(
            WorktreeInfo {
                path,
                head,
                branch,
                is_main: false,
                is_detached: self.is_detached,
                locked: self.locked,
                prunable: self.prunable,
            },
        )
    }

    /// Applies one line that belongs inside a record.
    fn apply(&mut self, line: &Vec<char>)
        ensures
            final(self)@ == apply_line(old(self)@, line@),
    {
        if let Some(head) = strip_prefix(line, "HEAD ") {
            self.head = Some(head);
        } else if let Some(branch) = strip_prefix(line, "branch refs/heads/") {
            self.branch = Some(branch);
        } else if is_word(line, "detached") {
            self.is_detached = true;
        } else if let Some(reason) = strip_prefix(line, "locked ") {
            self.locked = Some(trimmed(reason.as_str()));
        } else if is_word(line, "locked") {
            self.locked = Some(String::new());
        } else if let Some(reason) = strip_prefix(line, "prunable ") {
            self.prunable = Some(trimmed(reason.as_str()));
        } else if is_word(line, "prunable") {
            self.prunable = Some(String::new());
        }
    }
}

fn push_finished(acc: &mut Vec<WorktreeInfo>, p: PartialWorktree)
    ensures
        records(final(acc)@) == emit(records(old(acc)@), p@),
{
    let ghost before = records(acc@);
    match p.finish() {
        Some(info) => {
            acc.push(info);
            assert(records(acc@) =~= before.push(info@));
        },
        None => {},
    }
}

/// The records of a porcelain worktree listing, in order; the first is marked as the
/// primary checkout.
pub fn parse_worktree_list(output: &str) -> (r: Vec<WorktreeInfo>)
    ensures
        records(r@) == parse_listing(output@),
        r@.len() > 0 ==> r@[0].is_main,
        forall|i: int| 1 <= i < r@.len() ==> !(#[trigger] r@[i]).is_main,
        forall|i: int| 0 <= i < r@.len() ==> (#[trigger] r@[i]).is_detached ==> r@[i].branch is None,
{
    proof {
        lemma_parse_listing_shape(output@);
    }
    let lines = split_lines(output);
    let mut acc: Vec<WorktreeInfo> = Vec::new();
    let mut current = PartialWorktree::new();
    let mut i: usize = 0;
    assert(records(acc@) =~= Seq::<RecordModel>::empty());
    while i < lines.len()
        invariant
            i <= lines@.len(),
            crate::text::views(lines@) == lines_of(output@),
            (records(acc@), current@) == parse_state(
                crate::text::views(lines@).subrange(0, i as int),
            ),
        decreases lines@.len() - i,
    {
        let ghost seen = crate::text::views(lines@).subrange(0, i + 1);
        assert(seen.drop_last() =~= crate::text::views(lines@).subrange(0, i as int));
        let line = chars_of(trimmed_end(lines[i].as_str()).as_str());
        if line.len() == 0 {
            push_finished(&mut acc, current);
            current = PartialWorktree::new();
        } else if let Some(path) = strip_prefix(&line, "worktree ") {
            push_finished(&mut acc, current);
            current = PartialWorktree::new();
            current.path = Some(path);
        } else {
            current.apply(&line);
        }
        i += 1;
    }
    assert(crate::text::views(lines@).subrange(0, lines@.len() as int) =~= crate::text::views(
        lines@,
    ));
    push_finished(&mut acc, current);
    if acc.len() > 0 {
        let ghost before = records(acc@);
        acc[0].is_main = true;
        assert(records(acc@) =~= mark_main(before));
    }
    assert forall|i: int| 0 <= i < acc@.len() implies records(acc@)[i] == (#[trigger] acc@[i])@ by {}
    acc
}

// ---------------------------------------------------------------- properties of the parser

/// A record as the parser leaves it: not yet the primary, and without a branch when
/// detached.
pub open spec fn fresh(r: RecordModel) -> bool {
    !r.is_main && (r.is_detached ==> r.branch is None)
}

pub open spec fn all_fresh(rs: Seq<RecordModel>) -> bool {
    forall|i: int| 0 <= i < rs.len() ==> fresh(#[trigger] rs[i])
}

pub proof fn lemma_emit_fresh(acc: Seq<RecordModel>, p: PartialModel)
    requires
        all_fresh(acc),
    ensures
        all_fresh(emit(acc, p)),
{
    if let Some(r) = finish_model(p) {
        assert forall|i: int| 0 <= i < acc.push(r).len() implies fresh(#[trigger] acc.push(r)[i]) by {
            if i < acc.len() {
                assert(acc.push(r)[i] == acc[i]);
            }
        }
    }
}

/// Every record the parser emits is fresh.
pub proof fn lemma_parse_state_fresh(lines: Seq<Seq<char>>)
    ensures
        all_fresh(parse_state(lines).0),
    decreases lines.len(),
{
    if lines.len() > 0 {
        lemma_parse_state_fresh(lines.drop_last());
        let (acc, p) = parse_state(lines.drop_last());
        lemma_emit_fresh(acc, p);
    }
}

/// The listing's records: the first is the primary, no other is, and a detached record
/// has no branch.
pub proof fn lemma_parse_listing_shape(text: Seq<char>)
    ensures
        parse_listing(text).len() > 0 ==> parse_listing(text)[0].is_main,
        forall|i: int| 1 <= i < parse_listing(text).len() ==> !(#[trigger] parse_listing(text)[i]).is_main,
        forall|i: int|
            0 <= i < parse_listing(text).len() ==> (#[trigger] parse_listing(text)[i]).is_detached
                ==> parse_listing(text)[i].branch is None,
{
    let (acc, p) = parse_state(lines_of(text));
    lemma_parse_state_fresh(lines_of(text));
    lemma_emit_fresh(acc, p);
    let rs = emit(acc, p);
    assert forall|i: int| 0 <= i < rs.len() implies fresh(#[trigger] rs[i]) by {}
}

// ---------------------------------------------------------------- counting records

pub proof fn lemma_split_done(done: Seq<Seq<char>>, cur: Seq<char>, s: Seq<char>, c: char)
    ensures
        split_from(done, cur, s, c) == done + split_from(Seq::empty(), cur, s, c),
    decreases s.len(),
{
    if s.len() == 0 {
        assert(done.push(cur) =~= done + Seq::<Seq<char>>::empty().push(cur));
    } else if s[0] == c {
        lemma_split_done(done.push(cur), Seq::empty(), s.drop_first(), c);
        lemma_split_done(Seq::<Seq<char>>::empty().push(cur), Seq::empty(), s.drop_first(), c);
        assert(done.push(cur) =~= done + Seq::<Seq<char>>::empty().push(cur));
        let rest = split_from(Seq::empty(), Seq::empty(), s.drop_first(), c);
        assert((done + Seq::<Seq<char>>::empty().push(cur)) + rest =~= done + (Seq::<
            Seq<char>,
        >::empty().push(cur) + rest));
    } else {
        lemma_split_done(done, cur.push(s[0]), s.drop_first(), c);
    }
}

pub proof fn lemma_split_at(done: Seq<Seq<char>>, cur: Seq<char>, a: Seq<char>, c: char, b: Seq<char>)
    ensures
        split_from(done, cur, a + seq![c] + b, c) == split_from(done, cur, a, c) + split_from(
            Seq::empty(),
            Seq::empty(),
            b,
            c,
        ),
    decreases a.len(),
{
    let s = a + seq![c] + b;
    if a.len() == 0 {
        assert(s.drop_first() =~= b);
        assert(s[0] == c);
        lemma_split_done(done.push(cur), Seq::empty(), b, c);
    } else {
        assert(s[0] == a[0]);
        assert(s.drop_first() =~= a.drop_first() + seq![c] + b);
        if a[0] == c {
            lemma_split_at(done.push(cur), Seq::empty(), a.drop_first(), c, b);
        } else {
            lemma_split_at(done, cur.push(a[0]), a.drop_first(), c, b);
        }
    }
}

pub proof fn lemma_split_plain(done: Seq<Seq<char>>, cur: Seq<char>, a: Seq<char>, c: char)
    requires
        !a.contains(c),
    ensures
        split_from(done, cur, a, c) == done.push(cur + a),
    decreases a.len(),
{
    if a.len() == 0 {
        assert(cur + a =~= cur);
    } else {
        assert(a[0] != c) by {
            assert(a[0] == a[0]);
        }
        assert(!a.drop_first().contains(c)) by {
            if a.drop_first().contains(c) {
                let k = choose|k: int| 0 <= k < a.drop_first().len() && a.drop_first()[k] == c;
                assert(a[k + 1] == c);
            }
        }
        assert(cur.push(a[0]) + a.drop_first() =~= cur + a);
        lemma_split_plain(done, cur.push(a[0]), a.drop_first(), c);
    }
}

/// Lines without line feeds, joined with line feeds, read back as the same lines.
pub proof fn lemma_lines_of_join(ls: Seq<Seq<char>>)
    requires
        ls.len() > 0,
        forall|i: int| 0 <= i < ls.len() ==> !(#[trigger] ls[i]).contains('\n'),
    ensures
        lines_of(crate::text::join(ls, seq!['\n'])) == ls,
    decreases ls.len(),
{
    if ls.len() == 1 {
        assert(!ls[0].contains('\n'));
        lemma_split_plain(Seq::empty(), Seq::empty(), ls[0], '\n');
        assert(Seq::<char>::empty() + ls[0] =~= ls[0]);
        assert(ls =~= Seq::<Seq<char>>::empty().push(ls[0]));
    } else {
        let init = ls.drop_last();
        assert forall|i: int| 0 <= i < init.len() implies !(#[trigger] init[i]).contains('\n') by {
            assert(init[i] == ls[i]);
        }
        lemma_lines_of_join(init);
        assert(!ls[ls.len() - 1].contains('\n'));
        lemma_split_at(Seq::empty(), Seq::empty(), crate::text::join(init, seq!['\n']), '\n', ls.last());
        lemma_split_plain(Seq::empty(), Seq::empty(), ls.last(), '\n');
        assert(Seq::<char>::empty() + ls.last() =~= ls.last());
        assert(init + Seq::<Seq<char>>::empty().push(ls.last()) =~= ls);
    }
}

/// The parser's state after further lines `m`, from state `st`.
pub open spec fn run_lines(st: (Seq<RecordModel>, PartialModel), m: Seq<Seq<char>>) -> (
    Seq<RecordModel>,
    PartialModel,
)
    decreases m.len(),
{
    if m.len() == 0 {
        st
    } else {
        let s2 = run_lines(st, m.drop_last());
        step(s2.0, s2.1, trim_end(m.last()))
    }
}

pub proof fn lemma_parse_state_append(l: Seq<Seq<char>>, m: Seq<Seq<char>>)
    ensures
        parse_state(l + m) == run_lines(parse_state(l), m),
    decreases m.len(),
{
    if m.len() == 0 {
        assert(l + m =~= l);
    } else {
        assert((l + m).drop_last() =~= l + m.drop_last());
        assert((l + m).last() == m.last());
        lemma_parse_state_append(l, m.drop_last());
    }
}

pub proof fn lemma_run_lines_append(
    st: (Seq<RecordModel>, PartialModel),
    m1: Seq<Seq<char>>,
    m2: Seq<Seq<char>>,
)
    ensures
        run_lines(st, m1 + m2) == run_lines(run_lines(st, m1), m2),
    decreases m2.len(),
{
    if m2.len() == 0 {
        assert(m1 + m2 =~= m1);
    } else {
        assert((m1 + m2).drop_last() =~= m1 + m2.drop_last());
        assert((m1 + m2).last() == m2.last());
        lemma_run_lines_append(st, m1, m2.drop_last());
    }
}

/// The lines of one record: a `worktree` line, then lines that are neither blank nor
/// `worktree` lines.
pub open spec fn is_block(b: Seq<Seq<char>>) -> bool {
    &&& b.len() > 0
    &&& after(trim_end(b[0]), "worktree "@) is Some
    &&& forall|i: int|
        1 <= i < b.len() ==> trim_end(#[trigger] b[i]).len() > 0 && after(
            trim_end(b[i]),
            "worktree "@,
        ) is None
}

/// The path named by the `worktree` line that starts block `b`.
pub open spec fn block_path(b: Seq<Seq<char>>) -> Seq<char> {
    after(trim_end(b[0]), "worktree "@)->0
}

/// Whether one of the lines after the first of block `b` is `detached`.
pub open spec fn block_detached(b: Seq<Seq<char>>) -> bool {
    exists|j: int| 1 <= j < b.len() && trim_end(#[trigger] b[j]) == "detached"@
}

/// Record `r` is what block `b` describes: its path, and no branch when it is detached.
pub open spec fn describes(r: RecordModel, b: Seq<Seq<char>>) -> bool {
    &&& r.path == block_path(b)
    &&& block_detached(b) ==> r.is_detached && r.branch is None
}

/// Whether a line is blank once its trailing white space is gone.
pub open spec fn is_blank(l: Seq<char>) -> bool {
    trim_end(l).len() == 0
}

pub open spec fn all_blank(g: Seq<Seq<char>>) -> bool {
    forall|i: int| 0 <= i < g.len() ==> is_blank(#[trigger] g[i])
}

/// Each block preceded by its run of blank lines.
pub open spec fn interleave(blocks: Seq<Seq<Seq<char>>>, gaps: Seq<Seq<Seq<char>>>) -> Seq<Seq<char>>
    decreases blocks.len(),
{
    if blocks.len() == 0 || gaps.len() == 0 {
        Seq::empty()
    } else {
        interleave(blocks.drop_last(), gaps.drop_last()) + gaps.last() + blocks.last()
    }
}

/// The `detached` line sets the flag; no other line changes it, and no line in a record
/// changes its path.
proof fn lemma_apply_line_flags(p: PartialModel, l: Seq<char>)
    ensures
        apply_line(p, l).path == p.path,
        apply_line(p, l).is_detached == (p.is_detached || l == "detached"@),
{
    reveal_strlit("detached");
    reveal_strlit("HEAD ");
    reveal_strlit("branch refs/heads/");
    if l == "detached"@ {
        assert("HEAD "@[0] != l[0]);
        assert(!"HEAD "@.is_prefix_of(l)) by {
            if "HEAD "@.is_prefix_of(l) {
                assert(l.subrange(0, 5)[0] == l[0]);
            }
        }
        assert("branch refs/heads/"@[0] != l[0]);
        assert(!"branch refs/heads/"@.is_prefix_of(l)) by {
            if "branch refs/heads/"@.is_prefix_of(l) {
                assert(l.subrange(0, 18)[0] == l[0]);
            }
        }
    }
}

/// Reading a block emits the record in progress and leaves open one with the block's path,
/// detached exactly when a `detached` line is in the block.
pub proof fn lemma_run_block(st: (Seq<RecordModel>, PartialModel), b: Seq<Seq<char>>)
    requires
        is_block(b),
    ensures
        run_lines(st, b).0 == emit(st.0, st.1),
        run_lines(st, b).1.path == Some(block_path(b)),
        run_lines(st, b).1.is_detached == block_detached(b),
    decreases b.len(),
{
    if b.len() == 1 {
        assert(b.drop_last() =~= Seq::<Seq<char>>::empty());
        assert(trim_end(b.last()) == trim_end(b[0]));
        assert(trim_end(b[0]).len() > 0) by {
            let l = trim_end(b[0]);
            assert("worktree "@.is_prefix_of(l));
            lemma_worktree_line_nonempty(l);
        }
        assert(!block_detached(b));
    } else {
        let init = b.drop_last();
        assert(is_block(init)) by {
            assert(init[0] == b[0]);
            assert forall|i: int| 1 <= i < init.len() implies trim_end(#[trigger] init[i]).len() > 0
                && after(trim_end(init[i]), "worktree "@) is None by {
                assert(init[i] == b[i]);
            }
        }
        lemma_run_block(st, init);
        let last = trim_end(b[b.len() - 1]);
        assert(last.len() > 0);
        assert(after(last, "worktree "@) is None);
        lemma_apply_line_flags(run_lines(st, init).1, last);
        assert(block_path(init) == block_path(b));
        if block_detached(b) {
            let j = choose|j: int| 1 <= j < b.len() && trim_end(#[trigger] b[j]) == "detached"@;
            if j < b.len() - 1 {
                assert(init[j] == b[j]);
            }
        }
        if block_detached(init) {
            let j = choose|j: int| 1 <= j < init.len() && trim_end(#[trigger] init[j]) == "detached"@;
            assert(init[j] == b[j]);
        }
    }
}

/// A line that starts with `worktree ` is not empty.
proof fn lemma_worktree_line_nonempty(l: Seq<char>)
    requires
        "worktree "@.is_prefix_of(l),
    ensures
        l.len() > 0,
{
    reveal_strlit("worktree ");
}

/// A run of blank lines ends the record in progress, if there is one.
proof fn lemma_run_blank(st: (Seq<RecordModel>, PartialModel), g: Seq<Seq<char>>)
    requires
        all_blank(g),
    ensures
        g.len() == 0 ==> run_lines(st, g) == st,
        g.len() > 0 ==> run_lines(st, g) == (emit(st.0, st.1), empty_partial()),
    decreases g.len(),
{
    if g.len() > 0 {
        let init = g.drop_last();
        assert(all_blank(init)) by {
            assert forall|i: int| 0 <= i < init.len() implies is_blank(#[trigger] init[i]) by {
                assert(init[i] == g[i]);
            }
        }
        lemma_run_blank(st, init);
        assert(is_blank(g[g.len() - 1]));
    }
}

/// The record a partial record becomes describes block `b` when it was left by reading it.
proof fn lemma_finish_describes(p: PartialModel, b: Seq<Seq<char>>)
    requires
        p.path == Some(block_path(b)),
        p.is_detached == block_detached(b),
    ensures
        finish_model(p) is Some,
        describes(finish_model(p)->0, b),
{
}

/// Blocks with blank runs before them (non-empty between blocks) are read as every record
/// but the last emitted, and the last one open, each describing its block.
proof fn lemma_parse_interleave(blocks: Seq<Seq<Seq<char>>>, gaps: Seq<Seq<Seq<char>>>)
    requires
        blocks.len() > 0,
        gaps.len() == blocks.len(),
        forall|i: int| 0 <= i < blocks.len() ==> is_block(#[trigger] blocks[i]),
        forall|i: int| 0 <= i < gaps.len() ==> all_blank(#[trigger] gaps[i]),
        forall|i: int| 1 <= i < gaps.len() ==> (#[trigger] gaps[i]).len() > 0,
    ensures
        parse_state(interleave(blocks, gaps)).0.len() == blocks.len() - 1,
        forall|i: int|
            0 <= i < blocks.len() - 1 ==> describes(
                #[trigger] parse_state(interleave(blocks, gaps)).0[i],
                blocks[i],
            ),
        parse_state(interleave(blocks, gaps)).1.path == Some(block_path(blocks.last())),
        parse_state(interleave(blocks, gaps)).1.is_detached == block_detached(blocks.last()),
    decreases blocks.len(),
{
    let n = blocks.len();
    let ib = blocks.drop_last();
    let ig = gaps.drop_last();
    let g = gaps.last();
    let b = blocks.last();
    assert(is_block(blocks[n - 1]));
    assert(all_blank(gaps[n - 1]));
    assert(interleave(blocks, gaps) == interleave(ib, ig) + g + b);
    assert(interleave(ib, ig) + g + b =~= interleave(ib, ig) + (g + b));
    lemma_parse_state_append(interleave(ib, ig), g + b);
    let st = parse_state(interleave(ib, ig));
    lemma_run_lines_append(st, g, b);
    lemma_run_blank(st, g);
    lemma_run_block(run_lines(st, g), b);
    if n == 1 {
        assert(interleave(ib, ig) =~= Seq::<Seq<char>>::empty());
        assert(st == (Seq::<RecordModel>::empty(), empty_partial()));
        assert(emit(Seq::<RecordModel>::empty(), empty_partial()) == Seq::<RecordModel>::empty());
    } else {
        assert forall|i: int| 0 <= i < ib.len() implies is_block(#[trigger] ib[i]) by {
            assert(ib[i] == blocks[i]);
        }
        assert forall|i: int| 0 <= i < ig.len() implies all_blank(#[trigger] ig[i]) by {
            assert(ig[i] == gaps[i]);
        }
        assert forall|i: int| 1 <= i < ig.len() implies (#[trigger] ig[i]).len() > 0 by {
            assert(ig[i] == gaps[i]);
        }
        lemma_parse_interleave(ib, ig);
        assert(g.len() > 0);
        assert(ib.last() == blocks[n - 2]);
        lemma_finish_describes(st.1, ib.last());
        let acc = emit(st.0, st.1);
        assert(emit(acc, empty_partial()) == acc);
        assert forall|i: int| 0 <= i < n - 1 implies describes(#[trigger] acc[i], blocks[i]) by {
            if i < n - 2 {
                assert(ib[i] == blocks[i]);
            }
        }
    }
}

/// A listing of `n` records, each a block of lines, blocks separated by runs of blank
/// lines (with blank lines before the first and after the last allowed), is read as exactly
/// `n` records in block order: record `i` has the path of block `i`'s `worktree` line, is
/// detached without a branch when its block has a `detached` line, and only the first is
/// the primary checkout.
pub proof fn lemma_parse_counts_records(
    blocks: Seq<Seq<Seq<char>>>,
    gaps: Seq<Seq<Seq<char>>>,
    tail: Seq<Seq<char>>,
)
    requires
        gaps.len() == blocks.len(),
        forall|i: int| 0 <= i < blocks.len() ==> is_block(#[trigger] blocks[i]),
        forall|i: int| 0 <= i < gaps.len() ==> all_blank(#[trigger] gaps[i]),
        forall|i: int| 1 <= i < gaps.len() ==> (#[trigger] gaps[i]).len() > 0,
        all_blank(tail),
        forall|k: int|
            0 <= k < (interleave(blocks, gaps) + tail).len() ==> !(#[trigger] (interleave(
                blocks,
                gaps,
            ) + tail)[k]).contains('\n'),
    ensures
        parse_listing(crate::text::join(interleave(blocks, gaps) + tail, seq!['\n'])).len()
            == blocks.len(),
        forall|i: int|
            0 <= i < blocks.len() ==> {
                let r = #[trigger] parse_listing(
                    crate::text::join(interleave(blocks, gaps) + tail, seq!['\n']),
                )[i];
                describes(r, blocks[i]) && r.is_main == (i == 0)
            },
{
    let lines = interleave(blocks, gaps) + tail;
    let text = crate::text::join(lines, seq!['\n']);
    let empty_state = (Seq::<RecordModel>::empty(), empty_partial());
    if lines.len() == 0 {
        assert(text =~= Seq::<char>::empty());
        assert(lines_of(text) == seq![Seq::<char>::empty()]);
        if blocks.len() > 0 {
            lemma_parse_interleave(blocks, gaps);
            assert(interleave(blocks, gaps).len() >= blocks.last().len());
        }
        let ls = seq![Seq::<char>::empty()];
        assert(ls.drop_last() =~= Seq::<Seq<char>>::empty());
        assert(parse_state(ls.drop_last()) == empty_state);
        assert(trim_end(ls.last()) == Seq::<char>::empty());
        assert(parse_state(ls).0.len() == 0);
        assert(parse_state(ls).1 == empty_partial());
    } else {
        lemma_lines_of_join(lines);
        lemma_parse_state_append(interleave(blocks, gaps), tail);
        lemma_parse_listing_shape(text);
        if blocks.len() == 0 {
            assert(interleave(blocks, gaps) =~= Seq::<Seq<char>>::empty());
            lemma_run_blank(empty_state, tail);
            assert(parse_state(Seq::<Seq<char>>::empty()) == empty_state);
        } else {
            lemma_parse_interleave(blocks, gaps);
            let st = parse_state(interleave(blocks, gaps));
            lemma_run_blank(st, tail);
            lemma_finish_describes(st.1, blocks.last());
            let rs = emit(st.0, st.1);
            assert(emit(rs, empty_partial()) == rs);
            assert(parse_listing(text) == mark_main(rs));
            assert forall|i: int| 0 <= i < blocks.len() implies describes(#[trigger] mark_main(rs)[i], blocks[i])
                && mark_main(rs)[i].is_main == (i == 0) by {
                assert(describes(rs[i], blocks[i]));
            }
        }
    }
}

} // verus!
