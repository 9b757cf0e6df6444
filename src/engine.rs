//! The replacement engine: one file's lines, walked match by match.

use vstd::prelude::*;
use crate::lines::{join, join_lines, lines_of, split_lines};
use crate::operator::Action;
use crate::semver::{SemverMatcher, next_match};

verus! {

/// `line` with the span `start..end` replaced by `v`.
pub open spec fn splice(line: Seq<u8>, start: int, end: int, v: Seq<u8>) -> Seq<u8> {
    line.subrange(0, start) + v + line.subrange(end, line.len() as int)
}

/// The first match at or after line `li`, byte `c`, scanning the rest of
/// that line and then each following line from its start: its line, start
/// and end.
pub open spec fn next_site(lines: Seq<Seq<u8>>, li: int, c: int) -> Option<(int, int, int)>
    decreases lines.len() - li,
{
    if li < 0 || li >= lines.len() {
        None
    } else {
        match next_match(lines[li], c) {
            Some((s, e)) => Some((li, s, e)),
            None => next_site(lines, li + 1, 0),
        }
    }
}

/// The bytes of `line` that stay to be scanned from `c` on.
pub open spec fn rest(line: Seq<u8>, c: int) -> Seq<u8> {
    line.subrange(c, line.len() as int)
}

/// What one decision does to a line and its cursor at the match
/// `start..end`: a replacement splices in `v` and resumes right after it,
/// an ignored match resumes at its end.
pub open spec fn step(line: Seq<u8>, start: int, end: int, v: Seq<u8>, replace: bool) -> (
    Seq<u8>,
    int,
) {
    if replace {
        (splice(line, start, end, v), start + v.len())
    } else {
        (line, end)
    }
}

/// How many matches a scan of `r` from its start meets, resuming after each.
pub open spec fn match_count(r: Seq<u8>) -> nat
    decreases r.len(),
{
    match next_match(r, 0) {
        Some((s, e)) => 1 + match_count(r.subrange(e, r.len() as int)),
        None => 0,
    }
}

/// The text `r` turns into when its matches are decided in turn by `ds`
/// (true: replace by `v`); a match past the end of `ds` stays.
pub open spec fn line_outcome(r: Seq<u8>, v: Seq<u8>, ds: Seq<bool>) -> Seq<u8>
    decreases r.len(),
{
    match next_match(r, 0) {
        Some((s, e)) => r.subrange(0, s) + (if ds.len() > 0 && ds[0] {
            v
        } else {
            r.subrange(s, e)
        }) + line_outcome(r.subrange(e, r.len() as int), v, ds.drop_first()),
        None => r,
    }
}

/// Scanning a line from `c` and applying `step` at each match met, with the
/// decisions `ds` taken in turn (a match past their end stays): the line
/// that results and how many matches were met.
pub open spec fn walk(line: Seq<u8>, c: int, v: Seq<u8>, ds: Seq<bool>) -> (Seq<u8>, nat)
    decreases line.len() - c,
{
    if 0 <= c <= line.len() {
        match next_match(line, c) {
            Some((s, e)) => {
                let (l2, c2) = step(line, s, e, v, ds.len() > 0 && ds[0]);
                if l2.len() - c2 < line.len() - c {
                    let (r, n) = walk(l2, c2, v, ds.drop_first());
                    (r, n + 1)
                } else {
                    (line, 0)
                }
            },
            None => (line, 0),
        }
    } else {
        (line, 0)
    }
}

/// A match found from `c` lies at or after `c` and is not empty, and where
/// it is found depends on the bytes from `c` on alone.
proof fn lemma_next_match_shift(line: Seq<u8>, c: int)
    requires
        0 <= c <= line.len(),
    ensures
        match next_match(line, c) {
            Some((s, e)) => c <= s < e <= line.len() && next_match(rest(line, c), 0) == Some(
                (s - c, e - c),
            ),
            None => next_match(rest(line, c), 0) is None,
        },
{
    let r = rest(line, c);
    assert(r.subrange(0, r.len() as int) =~= r);
}

/// After a decision at the match that a scan from `c` found, what is left to
/// scan is the same whatever the decision was: the bytes after the match.
proof fn lemma_step_rest(line: Seq<u8>, c: int, v: Seq<u8>, replace: bool)
    requires
        0 <= c <= line.len(),
        next_match(line, c) is Some,
    ensures
        ({
            let (s, e) = next_match(line, c)->0;
            let (l2, c2) = step(line, s, e, v, replace);
            &&& 0 <= c2 <= l2.len()
            &&& rest(l2, c2) == rest(line, e)
            &&& rest(line, e) == rest(rest(line, c), e - c)
            &&& l2.subrange(0, c) == line.subrange(0, c)
            &&& l2.subrange(c, c2) == line.subrange(c, s) + (if replace {
                v
            } else {
                line.subrange(s, e)
            })
        }),
{
    lemma_next_match_shift(line, c);
    let (s, e) = next_match(line, c)->0;
    let (l2, c2) = step(line, s, e, v, replace);
    assert(rest(l2, c2) =~= rest(line, e));
    assert(rest(line, e) =~= rest(rest(line, c), e - c));
    assert(l2.subrange(0, c) =~= line.subrange(0, c));
    assert(l2.subrange(c, c2) =~= line.subrange(c, s) + (if replace {
        v
    } else {
        line.subrange(s, e)
    }));
}

/// Forward progress of the scan of one line: for any decisions, replacing or
/// ignoring, and whatever the length of the new version, a scan from `c`
/// meets exactly the matches that the unscanned text holds, one decision
/// each, and ends; the line it leaves is the scanned part unchanged followed
/// by the unscanned text with each match decided in turn.
pub proof fn lemma_forward_progress(line: Seq<u8>, c: int, v: Seq<u8>, ds: Seq<bool>)
    requires
        0 <= c <= line.len(),
    ensures
        walk(line, c, v, ds).1 == match_count(rest(line, c)),
        walk(line, c, v, ds).0 == line.subrange(0, c) + line_outcome(rest(line, c), v, ds),
    decreases line.len() - c,
{
    lemma_next_match_shift(line, c);
    let r = rest(line, c);
    match next_match(line, c) {
        Some((s, e)) => {
            let rep = ds.len() > 0 && ds[0];
            lemma_step_rest(line, c, v, rep);
            let (l2, c2) = step(line, s, e, v, rep);
            assert(l2.len() - c2 == line.len() - e);
            lemma_forward_progress(l2, c2, v, ds.drop_first());
            assert(rest(r, e - c) =~= r.subrange(e - c, r.len() as int));
            assert(r.subrange(0, s - c) =~= line.subrange(c, s));
            assert(r.subrange(s - c, e - c) =~= line.subrange(s, e));
            assert(l2.subrange(0, c2) =~= l2.subrange(0, c) + l2.subrange(c, c2));
            assert(walk(line, c, v, ds).0 =~= line.subrange(0, c) + line_outcome(r, v, ds));
        },
        None => {
            assert(line =~= line.subrange(0, c) + r);
        },
    }
}


/// One match put before the operator: where it is and the line around it.
pub struct Preview {
    /// 1-based number of the line.
    pub line_number: usize,
    /// The line before the match.
    pub before: Vec<u8>,
    /// The matched version.
    pub matched: Vec<u8>,
    /// The line after the match.
    pub after: Vec<u8>,
}

/// What a call of `FileSession::advance` did.
pub enum Step {
    /// A match waits for the operator's decision.
    Prompt(Preview),
    /// A match was replaced without asking, under "replace all in file".
    Replaced,
    /// Nothing is left to do in this file.
    Done,
}

/// The abstract state of a session.
pub struct SessionView {
    /// The lines as they stand now.
    pub lines: Seq<Seq<u8>>,
    /// The lines as read.
    pub original: Seq<Seq<u8>>,
    /// The replacement text.
    pub new_version: Seq<u8>,
    /// The line being scanned.
    pub line: int,
    /// The byte of that line from which scanning resumes.
    pub cursor: int,
    /// The match awaiting a decision, in the current line.
    pub pending: Option<(int, int)>,
    /// Every further match of this file is replaced without asking.
    pub replace_all: bool,
    /// At least one match was replaced.
    pub dirty: bool,
    /// Nothing is left to do in this file.
    pub finished: bool,
    /// The operator asked to stop the whole run.
    pub quit: bool,
}

/// The replacement of versions in one file, as a state machine driven by the
/// caller: `advance` finds the next match, `decide` applies the operator's
/// answer to it.
pub struct FileSession {
    lines: Vec<Vec<u8>>,
    original: Ghost<Seq<Seq<u8>>>,
    new_version: Vec<u8>,
    line: usize,
    cursor: usize,
    pending: Option<(usize, usize)>,
    replace_all: bool,
    dirty: bool,
    finished: bool,
    quit: bool,
}

impl View for FileSession {
    type V = SessionView;

    closed spec fn view(&self) -> SessionView {
        SessionView {
            lines: self.lines@.map_values(|l: Vec<u8>| l@),
            original: self.original@,
            new_version: self.new_version@,
            line: self.line as int,
            cursor: self.cursor as int,
            pending: match self.pending {
                Some((s, e)) => Some((s as int, e as int)),
                None => None,
            },
            replace_all: self.replace_all,
            dirty: self.dirty,
            finished: self.finished,
            quit: self.quit,
        }
    }
}

impl SessionView {
    /// The session's invariant.
    pub open spec fn wf(self) -> bool {
        &&& 0 <= self.line <= self.lines.len()
        &&& self.line < self.lines.len() ==> 0 <= self.cursor <= self.lines[self.line].len()
        &&& self.line == self.lines.len() ==> self.cursor == 0
        &&& self.lines.len() == self.original.len()
        &&& !self.dirty ==> self.lines == self.original
        &&& self.quit ==> self.finished
        &&& self.finished ==> self.pending is None
        &&& self.replace_all ==> self.pending is None
        &&& self.pending matches Some((s, e)) ==> self.line < self.lines.len() && next_match(
            self.lines[self.line],
            self.cursor,
        ) == Some((s, e))
    }

    /// What remains to be scanned, for termination: lines after the current
    /// one, then bytes of the current one.
    pub open spec fn remaining(self) -> (int, int) {
        if self.line < self.lines.len() {
            (self.lines.len() - self.line, self.lines[self.line].len() - self.cursor)
        } else {
            (0, 0)
        }
    }
}

impl FileSession {
    /// Starts on a file's content. Content that is not UTF-8 text gives a
    /// session with nothing to do: the file is skipped without a prompt and
    /// never written.
    pub fn new(contents: &[u8], new_version: Vec<u8>) -> (r: FileSession)
        ensures
            r@.wf(),
            r@.original == r@.lines,
            vstd::utf8::valid_utf8(contents@) ==> r@.lines == lines_of(contents@),
            r@.finished == !vstd::utf8::valid_utf8(contents@),
            r@.new_version == new_version@,
            r@.line == 0,
            r@.cursor == 0,
            r@.pending is None,
            !r@.replace_all,
            !r@.dirty,
            !r@.quit,
    {
        let text = is_utf8(contents);
        let lines = if text {
            split_lines(contents)
        } else {
            Vec::new()
        };
        let r = FileSession {
            original: Ghost(lines@.map_values(|l: Vec<u8>| l@)),
            lines,
            new_version,
            line: 0,
            cursor: 0,
            pending: None,
            replace_all: false,
            dirty: false,
            finished: !text,
            quit: false,
        };
        r
    }

    /// Scans on to the next match. Under "replace all in file" that match is
    /// replaced at once; otherwise it waits for `decide` and its preview is
    /// returned. With no match left the session is finished.
    pub fn advance(&mut self, matcher: &SemverMatcher) -> (r: Step)
        requires
            old(self)@.wf(),
            old(self)@.pending is None,
        ensures
            final(self)@.wf(),
            final(self)@.original == old(self)@.original,
            final(self)@.new_version == old(self)@.new_version,
            final(self)@.quit == old(self)@.quit,
            final(self)@.replace_all == old(self)@.replace_all,
            old(self)@.finished ==> r is Done && final(self)@ == old(self)@,
            !old(self)@.finished ==> match next_site(
                old(self)@.lines,
                old(self)@.line,
                old(self)@.cursor,
            ) {
                None => {
                    &&& r is Done
                    &&& final(self)@.finished
                    &&& final(self)@.lines == old(self)@.lines
                    &&& final(self)@.dirty == old(self)@.dirty
                },
                Some((li, s, e)) => {
                    &&& final(self)@.line == li
                    &&& !final(self)@.finished
                    &&& if old(self)@.replace_all {
                        &&& r is Replaced
                        &&& final(self)@.lines == old(self)@.lines.update(
                            li,
                            splice(old(self)@.lines[li], s, e, old(self)@.new_version),
                        )
                        &&& final(self)@.cursor == s + old(self)@.new_version.len()
                        &&& final(self)@.pending is None
                        &&& final(self)@.dirty
                    } else {
                        &&& r matches Step::Prompt(p) && p.line_number == li + 1
                            && p.before@ == old(self)@.lines[li].subrange(0, s)
                            && p.matched@ == old(self)@.lines[li].subrange(s, e)
                            && p.after@ == rest(old(self)@.lines[li], e)
                        &&& final(self)@.lines == old(self)@.lines
                        &&& final(self)@.cursor == (if li == old(self)@.line {
                            old(self)@.cursor
                        } else {
                            0
                        })
                        &&& final(self)@.pending == Some((s, e))
                        &&& final(self)@.dirty == old(self)@.dirty
                    }
                },
            },
    {
        if self.finished {
            return Step::Done;
        }
        let ghost o = self@;
        let n = self.lines.len();
        while self.line < n
            invariant
                self@.wf(),
                o == old(self)@,
                !o.finished,
                n == self.lines@.len(),
                self@.lines == o.lines,
                self@.original == o.original,
                self@.new_version == o.new_version,
                self@.pending is None,
                self@.replace_all == o.replace_all,
                self@.dirty == o.dirty,
                self@.quit == o.quit,
                !self@.finished,
                o.line <= self@.line,
                self@.line == o.line ==> self@.cursor == o.cursor,
                self@.line != o.line ==> self@.cursor == 0,
                next_site(o.lines, o.line, o.cursor) == next_site(
                    self@.lines,
                    self@.line,
                    self@.cursor,
                ),
            decreases n - self.line,
        {
            let li = self.line;
            let found = matcher.find_at(self.lines[li].as_slice(), self.cursor);
            match found {
                Some((s, e)) => {
                    proof {
                        lemma_next_match_shift(self@.lines[li as int], self@.cursor);
                    }
                    if self.replace_all {
                        self.replace_match(s, e);
                        return Step::Replaced;
                    } else {
                        let line = self.lines[li].as_slice();
                        let p = Preview {
                            line_number: li + 1,
                            before: copy_range(line, 0, s),
                            matched: copy_range(line, s, e),
                            after: copy_range(line, e, line.len()),
                        };
                        self.pending = Some((s, e));
                        return Step::Prompt(p);
                    }
                },
                None => {
                    self.line = li + 1;
                    self.cursor = 0;
                },
            }
        }
        self.finished = true;
        Step::Done
    }

    /// Replaces the match `start..end` of the current line by the new
    /// version and resumes scanning right after the inserted text.
    fn replace_match(&mut self, start: usize, end: usize)
        requires
            old(self)@.wf(),
            !old(self)@.finished,
            old(self)@.line < old(self)@.lines.len(),
            next_match(old(self)@.lines[old(self)@.line], old(self)@.cursor) == Some(
                (start as int, end as int),
            ),
            old(self)@.cursor <= start < end <= old(self)@.lines[old(self)@.line].len(),
        ensures
            final(self)@ == (SessionView {
                lines: old(self)@.lines.update(
                    old(self)@.line,
                    splice(old(self)@.lines[old(self)@.line], start as int, end as int, old(self)@.new_version),
                ),
                cursor: start + old(self)@.new_version.len(),
                pending: None,
                dirty: true,
                ..old(self)@
            }),
            final(self)@.wf(),
    {
        let li = self.line;
        let ghost o = self@;
        let nl = splice_line(self.lines[li].as_slice(), start, end, self.new_version.as_slice());
        assert(nl@.len() == start + self.new_version@.len() + (o.lines[li as int].len() - end));
        let nl_len = nl.len();
        assert(start + self.new_version@.len() <= nl_len);
        let c = start + self.new_version.len();
        self.lines.set(li, nl);
        self.cursor = c;
        self.pending = None;
        self.dirty = true;
        assert(self@.lines =~= o.lines.update(li as int, nl@));
    }

    /// Applies the operator's decision to the match awaiting it.
    ///
    /// Replace splices in the new version and resumes after it; Ignore
    /// resumes at the end of the match; ReplaceAllInFile replaces it and
    /// every later match of the file without asking; IgnoreAllInFile ends
    /// the file, keeping what was replaced before; Quit ends the file the
    /// same way and asks the whole run to stop.
    pub fn decide(&mut self, action: Action)
        requires
            old(self)@.wf(),
            old(self)@.pending is Some,
        ensures
            final(self)@.wf(),
            final(self)@.original == old(self)@.original,
            final(self)@.new_version == old(self)@.new_version,
            final(self)@.line == old(self)@.line,
            final(self)@.pending is None,
            ({
                let o = old(self)@;
                let f = final(self)@;
                let (s, e) = o.pending->0;
                match action {
                    Action::Replace | Action::ReplaceAllInFile => {
                        &&& f.lines == o.lines.update(o.line, splice(o.lines[o.line], s, e, o.new_version))
                        &&& f.cursor == s + o.new_version.len()
                        &&& f.dirty
                        &&& f.replace_all == (action == Action::ReplaceAllInFile)
                        &&& !f.finished && !f.quit
                    },
                    Action::Ignore => {
                        &&& f.lines == o.lines
                        &&& f.cursor == e
                        &&& f.dirty == o.dirty
                        &&& !f.replace_all && !f.finished && !f.quit
                    },
                    Action::IgnoreAllInFile => {
                        &&& f.lines == o.lines
                        &&& f.dirty == o.dirty
                        &&& f.replace_all == o.replace_all
                        &&& f.finished && !f.quit
                    },
                    Action::Quit => {
                        &&& f.lines == o.lines
                        &&& f.dirty == o.dirty
                        &&& f.replace_all == o.replace_all
                        &&& f.finished && f.quit
                    },
                }
            }),
    {
        let (s, e) = match self.pending {
            Some(p) => p,
            None => (0, 0),
        };
        proof {
            lemma_next_match_shift(self@.lines[self@.line], self@.cursor);
        }
        match action {
            Action::Replace => {
                self.replace_match(s, e);
            },
            Action::ReplaceAllInFile => {
                self.replace_match(s, e);
                self.replace_all = true;
            },
            Action::Ignore => {
                self.cursor = e;
                self.pending = None;
            },
            Action::IgnoreAllInFile => {
                self.pending = None;
                self.finished = true;
            },
            Action::Quit => {
                self.pending = None;
                self.finished = true;
                self.quit = true;
            },
        }
    }

    /// Whether the operator asked to stop the whole run.
    pub fn quit_requested(&self) -> (r: bool)
        ensures
            r == self@.quit,
    {
        self.quit
    }

    /// Whether nothing is left to do in this file.
    pub fn is_finished(&self) -> (r: bool)
        ensures
            r == self@.finished,
    {
        self.finished
    }

    /// The content to write back: the lines joined by line feeds, if at
    /// least one match was replaced; `None` if the file must stay as it is.
    pub fn contents_to_write(&self) -> (r: Option<Vec<u8>>)
        ensures
            r is Some <==> self@.dirty,
            r matches Some(c) ==> c@ == join_lines(self@.lines),
    {
        if self.dirty {
            Some(join(&self.lines))
        } else {
            None
        }
    }
}

/// A site found from line `li`, byte `c`, lies in that line or a later one,
/// and in that line at or after `c`.
proof fn lemma_next_site_after(lines: Seq<Seq<u8>>, li: int, c: int)
    ensures
        next_site(lines, li, c) matches Some((l2, s, e)) ==> li <= l2 < lines.len() && (l2 == li
            ==> next_match(lines[li], c) == Some((s, e))),
    decreases lines.len() - li,
{
    if 0 <= li < lines.len() && next_match(lines[li], c) is None {
        lemma_next_site_after(lines, li + 1, 0);
    }
}

/// Whether an answer replaces the match it is given for.
pub open spec fn replaces(a: Action) -> bool {
    a == Action::Replace || a == Action::ReplaceAllInFile
}

/// The measure by which a file run ends: lines after the current one, then
/// bytes of the current one left to scan.
pub open spec fn run_measure(lines: Seq<Seq<u8>>, li: int, c: int) -> (int, int) {
    if 0 <= li < lines.len() {
        (lines.len() - li, lines[li].len() - c)
    } else {
        (0, 0)
    }
}

/// The lexicographic order of `run_measure`, on values that stay nonnegative.
pub open spec fn measure_lt(a: (int, int), b: (int, int)) -> bool {
    0 <= a.0 && 0 <= a.1 && (a.0 < b.0 || (a.0 == b.0 && a.1 < b.1))
}

/// The rest of a file run from line `li`, byte `c`, under "replace all in
/// file" when `ra` holds, with answers taken from `ans[k]` on; a match to
/// ask about with no answer left ends the run as a quit. The result is the
/// lines at the end, whether any match was replaced, the index of the first
/// answer not used, and whether the run was quit.
pub open spec fn file_run(
    lines: Seq<Seq<u8>>,
    li: int,
    c: int,
    v: Seq<u8>,
    ra: bool,
    dirty: bool,
    ans: Seq<Action>,
    k: int,
) -> (Seq<Seq<u8>>, bool, int, bool)
    decreases run_measure(lines, li, c).0, run_measure(lines, li, c).1,
{
    match next_site(lines, li, c) {
        None => (lines, dirty, k, false),
        Some((l2, s, e)) => {
            let replaced = lines.update(l2, splice(lines[l2], s, e, v));
            let c2 = s + v.len();
            if ra {
                if measure_lt(run_measure(replaced, l2, c2), run_measure(lines, li, c)) {
                    file_run(replaced, l2, c2, v, true, true, ans, k)
                } else {
                    (replaced, true, k, false)
                }
            } else if k < 0 || k >= ans.len() {
                (lines, dirty, k, true)
            } else {
                match ans[k] {
                    Action::Replace | Action::ReplaceAllInFile => {
                        if measure_lt(run_measure(replaced, l2, c2), run_measure(lines, li, c)) {
                            file_run(
                                replaced,
                                l2,
                                c2,
                                v,
                                ans[k] == Action::ReplaceAllInFile,
                                true,
                                ans,
                                k + 1,
                            )
                        } else {
                            (replaced, true, k + 1, false)
                        }
                    },
                    Action::Ignore => {
                        if measure_lt(run_measure(lines, l2, e), run_measure(lines, li, c)) {
                            file_run(lines, l2, e, v, false, dirty, ans, k + 1)
                        } else {
                            (lines, dirty, k + 1, false)
                        }
                    },
                    Action::IgnoreAllInFile => (lines, dirty, k + 1, false),
                    Action::Quit => (lines, dirty, k + 1, true),
                }
            }
        },
    }
}

/// Once "replace all in file" is chosen, the rest of that file asks the
/// operator nothing: the run uses no further answer, does not quit, and
/// marks the file changed if it meets a match. A new file starts without
/// that choice (`file_result` runs it with `ra` false).
pub proof fn lemma_replace_all_asks_nothing(
    lines: Seq<Seq<u8>>,
    li: int,
    c: int,
    v: Seq<u8>,
    dirty: bool,
    ans: Seq<Action>,
    k: int,
)
    ensures
        file_run(lines, li, c, v, true, dirty, ans, k).2 == k,
        !file_run(lines, li, c, v, true, dirty, ans, k).3,
        next_site(lines, li, c) is Some ==> file_run(lines, li, c, v, true, dirty, ans, k).1,
    decreases run_measure(lines, li, c).0, run_measure(lines, li, c).1,
{
    match next_site(lines, li, c) {
        None => {},
        Some((l2, s, e)) => {
            let replaced = lines.update(l2, splice(lines[l2], s, e, v));
            let c2 = s + v.len();
            if measure_lt(run_measure(replaced, l2, c2), run_measure(lines, li, c)) {
                lemma_replace_all_asks_nothing(replaced, l2, c2, v, true, ans, k);
            }
        },
    }
}

/// A file is only marked changed by a replacement: with no match left, or
/// with no answer left that replaces, a run that has changed nothing yet
/// changes nothing, so the file is not written.
pub proof fn lemma_no_replacement_no_write(
    lines: Seq<Seq<u8>>,
    li: int,
    c: int,
    v: Seq<u8>,
    ans: Seq<Action>,
    k: int,
)
    requires
        forall|j: int| k <= j < ans.len() ==> !replaces(#[trigger] ans[j]),
    ensures
        !file_run(lines, li, c, v, false, false, ans, k).1,
    decreases run_measure(lines, li, c).0, run_measure(lines, li, c).1,
{
    match next_site(lines, li, c) {
        None => {},
        Some((l2, s, e)) => {
            if 0 <= k < ans.len() && ans[k] == Action::Ignore {
                if measure_lt(run_measure(lines, l2, e), run_measure(lines, li, c)) {
                    lemma_no_replacement_no_write(lines, l2, e, v, ans, k + 1);
                }
            }
        },
    }
}

/// A file in which the scan meets no match is never changed.
pub proof fn lemma_no_match_no_write(
    lines: Seq<Seq<u8>>,
    v: Seq<u8>,
    ans: Seq<Action>,
    k: int,
)
    requires
        next_site(lines, 0, 0) is None,
    ensures
        file_run(lines, 0, 0, v, false, false, ans, k) == (lines, false, k, false),
{
}

/// Skipping the rest of a file, or quitting, at a match keeps every change
/// already made to the file and makes no other; skipping lets the run go on
/// to the next file, quitting stops it.
pub proof fn lemma_skip_or_quit_keeps_changes(
    lines: Seq<Seq<u8>>,
    li: int,
    c: int,
    v: Seq<u8>,
    dirty: bool,
    ans: Seq<Action>,
    k: int,
)
    requires
        next_site(lines, li, c) is Some,
        0 <= k < ans.len(),
        ans[k] == Action::IgnoreAllInFile || ans[k] == Action::Quit,
    ensures
        file_run(lines, li, c, v, false, dirty, ans, k) == (
            lines,
            dirty,
            k + 1,
            ans[k] == Action::Quit,
        ),
{
}

/// What processing a file's content under `ans` from `k` on gives: the
/// content to write back if any, the first answer not used, and whether the
/// run must stop.
pub open spec fn file_result(contents: Seq<u8>, v: Seq<u8>, ans: Seq<Action>, k: int) -> (
    Option<Seq<u8>>,
    int,
    bool,
) {
    if !vstd::utf8::valid_utf8(contents) {
        (None, k, false)
    } else {
        let (lf, d, k2, q) = file_run(lines_of(contents), 0, 0, v, false, false, ans, k);
        (if d {
            Some(join_lines(lf))
        } else {
            None
        }, k2, q)
    }
}

/// What became of one file under a script of answers.
pub struct FileReport {
    /// The content to write back, if at least one match was replaced.
    pub output: Option<Vec<u8>>,
    /// The index of the first answer not used by this file.
    pub next_answer: usize,
    /// The run must stop: the operator quit, or the answers ran out.
    pub should_quit: bool,
}

/// Processes one file's content, taking the operator's answers from
/// `answers` from index `start` on, one for each match that is asked about.
/// When a match is to be asked about and no answer is left, the file ends
/// as on a quit.
pub fn find_and_replace_versions_in_file(
    matcher: &SemverMatcher,
    contents: &[u8],
    new_version: &[u8],
    answers: &Vec<Action>,
    start: usize,
) -> (r: FileReport)
    requires
        start <= answers@.len(),
    ensures
        start <= r.next_answer <= answers@.len(),
        !vstd::utf8::valid_utf8(contents@) ==> r.output is None && r.next_answer == start
            && !r.should_quit,
        vstd::utf8::valid_utf8(contents@) && next_site(lines_of(contents@), 0, 0) is None
            ==> r.output is None && r.next_answer == start && !r.should_quit,
        r.output is Some ==> exists|j: int| start <= j < r.next_answer && replaces(answers@[j]),
        r.should_quit ==> r.next_answer == answers@.len() || answers@[r.next_answer - 1]
            == Action::Quit,
        ({
            let (o, k, q) = file_result(contents@, new_version@, answers@, start as int);
            &&& r.next_answer == k
            &&& r.should_quit == q
            &&& match r.output {
                Some(c) => o == Some(c@),
                None => o is None,
            }
        }),
{
    let mut v: Vec<u8> = Vec::new();
    append_range(&mut v, new_version, 0, new_version.len());
    assert(v@ =~= new_version@);
    let mut session = FileSession::new(contents, v);
    let mut next: usize = start;
    let mut out_of_answers = false;
    let ghost lines0 = session@.lines;
    loop
        invariant
            session@.wf(),
            session@.pending is None,
            start <= next <= answers@.len(),
            vstd::utf8::valid_utf8(contents@) ==> session@.original == lines_of(contents@),
            !vstd::utf8::valid_utf8(contents@) ==> session@.finished && next == start
                && !session@.dirty && !session@.quit,
            next_site(lines0, 0, 0) is None ==> next == start && !session@.dirty && !session@.quit
                && (!session@.finished ==> session@.line == 0 && session@.cursor == 0),
            session@.dirty ==> exists|j: int| start <= j < next && replaces(answers@[j]),
            session@.replace_all ==> exists|j: int| start <= j < next && replaces(answers@[j]),
            session@.quit ==> (out_of_answers && next == answers@.len()) || answers@[next - 1]
                == Action::Quit,
            session@.original == lines0,
            next > start ==> next_site(lines0, 0, 0) is Some,
            session@.new_version == new_version@,
            vstd::utf8::valid_utf8(contents@) && !session@.finished ==> file_run(
                session@.lines,
                session@.line,
                session@.cursor,
                new_version@,
                session@.replace_all,
                session@.dirty,
                answers@,
                next as int,
            ) == file_run(lines0, 0, 0, new_version@, false, false, answers@, start as int),
            vstd::utf8::valid_utf8(contents@) && session@.finished ==> file_run(
                lines0,
                0,
                0,
                new_version@,
                false,
                false,
                answers@,
                start as int,
            ) == (session@.lines, session@.dirty, next as int, session@.quit),
        ensures
            session@.finished,
        decreases session@.remaining().0, session@.remaining().1,
    {
        let ghost before = session@;
        let step = session.advance(matcher);
        proof {
            lemma_next_site_after(before.lines, before.line, before.cursor);
        }
        match step {
            Step::Done => {
                break;
            },
            Step::Replaced => {
                proof {
                    let (li, s, e) = next_site(before.lines, before.line, before.cursor)->0;
                    lemma_next_match_shift(before.lines[li], if li == before.line {
                        before.cursor
                    } else {
                        0
                    });
                }
            },
            Step::Prompt(_) => {
                let a = if next < answers.len() {
                    let a = answers[next];
                    next = next + 1;
                    a
                } else {
                    out_of_answers = true;
                    Action::Quit
                };
                let ghost mid = session@;
                proof {
                    lemma_next_match_shift(mid.lines[mid.line], mid.cursor);
                }
                session.decide(a);
                if session.is_finished() {
                    break;
                }
            },
        }
    }
    let output = session.contents_to_write();
    FileReport { output, next_answer: next, should_quit: session.quit_requested() }
}

/// The content of a file to write back, as a sequence.
pub open spec fn output_view(o: Option<Vec<u8>>) -> Option<Seq<u8>> {
    match o {
        Some(c) => Some(c@),
        None => None,
    }
}

/// What a run over `files` from file `i` on, with answers from `ans[k]` on,
/// writes back to each of them; after a quit, nothing.
pub open spec fn run_outputs(files: Seq<Seq<u8>>, v: Seq<u8>, ans: Seq<Action>, i: int, k: int) -> Seq<
    Option<Seq<u8>>,
>
    decreases files.len() - i,
{
    if i < 0 || i >= files.len() {
        Seq::empty()
    } else {
        let (o, k2, q) = file_result(files[i], v, ans, k);
        seq![o] + if q {
            Seq::new((files.len() - i - 1) as nat, |j: int| None)
        } else {
            run_outputs(files, v, ans, i + 1, k2)
        }
    }
}

/// The file at which a run from file `i` on stops, if it stops.
pub open spec fn run_stop(files: Seq<Seq<u8>>, v: Seq<u8>, ans: Seq<Action>, i: int, k: int) -> Option<
    int,
>
    decreases files.len() - i,
{
    if i < 0 || i >= files.len() {
        None
    } else {
        let (o, k2, q) = file_result(files[i], v, ans, k);
        if q {
            Some(i)
        } else {
            run_stop(files, v, ans, i + 1, k2)
        }
    }
}

/// A quit stops the run where it happens: every file after the one in
/// which the operator quit is left unwritten.
pub proof fn lemma_quit_leaves_later_files(
    files: Seq<Seq<u8>>,
    v: Seq<u8>,
    ans: Seq<Action>,
    i: int,
    k: int,
)
    requires
        0 <= i <= files.len(),
    ensures
        run_outputs(files, v, ans, i, k).len() == files.len() - i,
        run_stop(files, v, ans, i, k) matches Some(q) ==> i <= q < files.len() && forall|j: int|
            q < j < files.len() ==> #[trigger] run_outputs(files, v, ans, i, k)[j - i] is None,
    decreases files.len() - i,
{
    if i < files.len() {
        let (o, k2, q) = file_result(files[i], v, ans, k);
        if !q {
            lemma_quit_leaves_later_files(files, v, ans, i + 1, k2);
            let tail = run_outputs(files, v, ans, i + 1, k2);
            let all = run_outputs(files, v, ans, i, k);
            if let Some(qq) = run_stop(files, v, ans, i, k) {
                assert forall|j: int| qq < j < files.len() implies #[trigger] all[j - i] is None by {
                    assert(all[j - i] == tail[j - (i + 1)]);
                }
            }
        } else {
            let all = run_outputs(files, v, ans, i, k);
            assert forall|j: int| i < j < files.len() implies #[trigger] all[j - i] is None by {}
        }
    }
}

/// What became of a run over several files under a script of answers.
pub struct RunReport {
    /// For each file, the content to write back, if any.
    pub outputs: Vec<Option<Vec<u8>>>,
    /// The file at which the run stopped, if it stopped before the end.
    pub stopped_at: Option<usize>,
}

/// Processes files in order, taking the operator's answers from `answers`
/// in turn. A quit (or running out of answers) keeps what was replaced up
/// to then, in that file and earlier ones, and leaves every later file
/// untouched; a file that is not UTF-8 text is skipped without using an
/// answer.
pub fn find_and_replace_versions_in_files(
    matcher: &SemverMatcher,
    files: &Vec<Vec<u8>>,
    new_version: &[u8],
    answers: &Vec<Action>,
) -> (r: RunReport)
    ensures
        r.outputs@.map_values(|o: Option<Vec<u8>>| output_view(o)) == run_outputs(
            files@.map_values(|f: Vec<u8>| f@),
            new_version@,
            answers@,
            0,
            0,
        ),
        r.stopped_at matches Some(k) ==> run_stop(
            files@.map_values(|f: Vec<u8>| f@),
            new_version@,
            answers@,
            0,
            0,
        ) == Some(k as int),
        r.stopped_at is None ==> run_stop(
            files@.map_values(|f: Vec<u8>| f@),
            new_version@,
            answers@,
            0,
            0,
        ) is None,
        r.outputs@.len() == files@.len(),
        forall|i: int|
            0 <= i < files@.len() && !vstd::utf8::valid_utf8(#[trigger] files@[i]@) ==> r.outputs@[i] is None,
        forall|i: int|
            0 <= i < files@.len() && vstd::utf8::valid_utf8(#[trigger] files@[i]@) && next_site(
                lines_of(files@[i]@),
                0,
                0,
            ) is None ==> r.outputs@[i] is None,
        r.stopped_at matches Some(k) ==> k < files@.len() && forall|i: int|
            k < i < files@.len() ==> #[trigger] r.outputs@[i] is None,
        (forall|j: int| 0 <= j < answers@.len() ==> !replaces(#[trigger] answers@[j])) ==> forall|
            i: int,
        | 0 <= i < files@.len() ==> #[trigger] r.outputs@[i] is None,
{
    let mut outputs: Vec<Option<Vec<u8>>> = Vec::new();
    let mut next: usize = 0;
    let mut i: usize = 0;
    let mut stopped_at: Option<usize> = None;
    let ghost fs = files@.map_values(|f: Vec<u8>| f@);
    let ghost total = run_outputs(fs, new_version@, answers@, 0, 0);
    let ghost stop_all = run_stop(fs, new_version@, answers@, 0, 0);
    while i < files.len() && stopped_at.is_none()
        invariant
            fs == files@.map_values(|f: Vec<u8>| f@),
            stopped_at is None ==> outputs@.map_values(|o: Option<Vec<u8>>| output_view(o))
                + run_outputs(fs, new_version@, answers@, i as int, next as int) == total,
            stopped_at is None ==> run_stop(fs, new_version@, answers@, i as int, next as int)
                == stop_all,
            stopped_at matches Some(k) ==> outputs@.map_values(
                |o: Option<Vec<u8>>| output_view(o),
            ) + Seq::new((files@.len() - i) as nat, |j: int| None::<Seq<u8>>) == total
                && stop_all == Some(k as int),
            i <= files@.len(),
            next <= answers@.len(),
            outputs@.len() == i,
            forall|k: int|
                0 <= k < i && !vstd::utf8::valid_utf8(#[trigger] files@[k]@) ==> outputs@[k] is None,
            forall|k: int|
                0 <= k < i && vstd::utf8::valid_utf8(#[trigger] files@[k]@) && next_site(
                    lines_of(files@[k]@),
                    0,
                    0,
                ) is None ==> outputs@[k] is None,
            forall|k: int|
                0 <= k < i && #[trigger] outputs@[k] is Some ==> exists|j: int|
                    0 <= j < next && replaces(answers@[j]),
            stopped_at matches Some(k) ==> k + 1 == i,
        decreases files@.len() - i,
    {
        let fr = find_and_replace_versions_in_file(matcher, files[i].as_slice(), new_version, answers, next);
        let ghost ov0 = outputs@.map_values(|o: Option<Vec<u8>>| output_view(o));
        proof {
            assert(fs[i as int] == files@[i as int]@);
        }
        outputs.push(fr.output);
        proof {
            let ov1 = outputs@.map_values(|o: Option<Vec<u8>>| output_view(o));
            assert(ov1 =~= ov0.push(output_view(fr.output)));
            let rest = run_outputs(fs, new_version@, answers@, i as int, next as int);
            assert(rest == seq![output_view(fr.output)] + if fr.should_quit {
                Seq::new((files@.len() - i - 1) as nat, |j: int| None::<Seq<u8>>)
            } else {
                run_outputs(fs, new_version@, answers@, i + 1, fr.next_answer as int)
            });
            assert(ov0 + rest =~= ov1 + if fr.should_quit {
                Seq::new((files@.len() - i - 1) as nat, |j: int| None::<Seq<u8>>)
            } else {
                run_outputs(fs, new_version@, answers@, i + 1, fr.next_answer as int)
            });
        }
        next = fr.next_answer;
        if fr.should_quit {
            stopped_at = Some(i);
        }
        i = i + 1;
    }
    let stop = i;
    while i < files.len()
        invariant
            stopped_at is None ==> outputs@.map_values(|o: Option<Vec<u8>>| output_view(o)) == total
                && stop_all is None,
            stopped_at matches Some(k) ==> outputs@.map_values(
                |o: Option<Vec<u8>>| output_view(o),
            ) + Seq::new((files@.len() - i) as nat, |j: int| None::<Seq<u8>>) == total
                && stop_all == Some(k as int),
            stop <= i <= files@.len(),
            outputs@.len() == i,
            stopped_at matches Some(k) ==> k + 1 == stop,
            stopped_at is None ==> stop == files@.len(),
            forall|k: int| stop <= k < i ==> #[trigger] outputs@[k] is None,
            forall|k: int|
                0 <= k < stop && !vstd::utf8::valid_utf8(#[trigger] files@[k]@) ==> outputs@[k] is None,
            forall|k: int|
                0 <= k < stop && vstd::utf8::valid_utf8(#[trigger] files@[k]@) && next_site(
                    lines_of(files@[k]@),
                    0,
                    0,
                ) is None ==> outputs@[k] is None,
            forall|k: int|
                0 <= k < stop && #[trigger] outputs@[k] is Some ==> exists|j: int|
                    0 <= j < answers@.len() && replaces(answers@[j]),
        decreases files@.len() - i,
    {
        let ghost ov0 = outputs@.map_values(|o: Option<Vec<u8>>| output_view(o));
        outputs.push(None);
        proof {
            let ov1 = outputs@.map_values(|o: Option<Vec<u8>>| output_view(o));
            assert(ov1 =~= ov0.push(None));
            assert(ov0 + Seq::new((files@.len() - i) as nat, |j: int| None::<Seq<u8>>) =~= ov1
                + Seq::new((files@.len() - i - 1) as nat, |j: int| None::<Seq<u8>>));
        }
        i = i + 1;
    }
    proof {
        let ov = outputs@.map_values(|o: Option<Vec<u8>>| output_view(o));
        if stopped_at is Some {
            assert(ov + Seq::new((files@.len() - i) as nat, |j: int| None::<Seq<u8>>) =~= ov);
        }
    }
    RunReport { outputs, stopped_at }
}

/// Appends `src[from..to]` to `dst`.
fn append_range(dst: &mut Vec<u8>, src: &[u8], from: usize, to: usize)
    requires
        from <= to <= src@.len(),
    ensures
        final(dst)@ == old(dst)@ + src@.subrange(from as int, to as int),
{
    let mut i = from;
    while i < to
        invariant
            from <= i <= to,
            to <= src@.len(),
            dst@ == old(dst)@ + src@.subrange(from as int, i as int),
        decreases to - i,
    {
        dst.push(src[i]);
        i = i + 1;
        assert(dst@ =~= old(dst)@ + src@.subrange(from as int, i as int));
    }
}

/// A copy of `src[from..to]`.
fn copy_range(src: &[u8], from: usize, to: usize) -> (r: Vec<u8>)
    requires
        from <= to <= src@.len(),
    ensures
        r@ == src@.subrange(from as int, to as int),
{
    let mut r: Vec<u8> = Vec::new();
    append_range(&mut r, src, from, to);
    assert(r@ =~= src@.subrange(from as int, to as int));
    r
}

/// `line` with the span `start..end` replaced by `v`.
pub fn splice_line(line: &[u8], start: usize, end: usize, v: &[u8]) -> (r: Vec<u8>)
    requires
        start <= end <= line@.len(),
    ensures
        r@ == splice(line@, start as int, end as int, v@),
{
    let mut r = copy_range(line, 0, start);
    append_range(&mut r, v, 0, v.len());
    append_range(&mut r, line, end, line.len());
    assert(v@.subrange(0, v@.len() as int) =~= v@);
    r
}

/// Whether bytes are valid UTF-8 text.
///
/// Relies on std::str::from_utf8, which accepts exactly the valid UTF-8
/// byte sequences.
#[verifier::external_body]
fn is_utf8(b: &[u8]) -> (r: bool)
    ensures
        r == vstd::utf8::valid_utf8(b@),
{
    std::str::from_utf8(b).is_ok()
}

} // verus!
