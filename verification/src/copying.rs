//! The decisions of a copy run: which rows may be copied and what is
//! reported. The copying itself, and the progress reports with their times,
//! are left to the caller.
use vstd::prelude::*;
use crate::evaldirs::join_dir;
use crate::listing::{
    check_walk, lemma_scan_from, lines_of, premature_message, scan_from, step_is, testpress_spec,
    walk_paths, FileEntry, ListScan, ListStep, ScanStep,
};
use crate::text::{
    all_digits, append_chars, chars_of, decimal, decimal_u64, free_of, is_digit, lemma_decimal_digits,
    lemma_split_join, lemma_split_whole, occurs_at, same_chars, split_on, split_seq, string_of,
    views,
};

verus! {

/// What a copy run reports when it went through the whole list.
pub fn copy_completed() -> (r: (u32, String))
    ensures
        r.0 == 0,
        r.1@ == "completed copy"@,
{
    (0, string_of(&chars_of("completed copy")))
}

/// Whether the row may be copied, given whether its input file and its
/// output file exist: `None` when the input file is there and the output file
/// is not; otherwise the code and message that end the run.
pub fn copy_verdict(entry: &FileEntry, from_exists: bool, to_exists: bool) -> (r: Option<
    (u32, String),
>)
    ensures
        r is None <==> (from_exists && !to_exists),
        !from_exists ==> (r matches Some((c, m)) && c == 4 && m@
            == "input file does not exist: --"@ + entry.fullfrom@ + "--"@),
        from_exists && to_exists ==> (r matches Some((c, m)) && c == 5 && m@
            == "output file exists: "@ + entry.fullfrom@),
{
    if !from_exists {
        let mut m = chars_of("input file does not exist: --");
        append_chars(&mut m, &chars_of(entry.fullfrom.as_str()));
        append_chars(&mut m, &chars_of("--"));
        Some((4, string_of(&m)))
    } else if to_exists {
        let mut m = chars_of("output file exists: ");
        append_chars(&mut m, &chars_of(entry.fullfrom.as_str()));
        Some((5, string_of(&m)))
    } else {
        None
    }
}

/// The start of a progress report: `Progress|`, the line reached, `|`, the
/// index of the last line, `|`.
pub fn progress_head(at: usize, last: usize) -> (r: String)
    ensures
        r@ == "Progress|"@ + decimal(at as nat) + "|"@ + decimal(last as nat) + "|"@,
{
    let mut m = chars_of("Progress|");
    append_chars(&mut m, &decimal_u64(at as u64));
    append_chars(&mut m, &chars_of("|"));
    append_chars(&mut m, &decimal_u64(last as u64));
    append_chars(&mut m, &chars_of("|"));
    string_of(&m)
}

/// What a copy run reports, walking `lines` from line `i` with `answers[j..]`
/// telling, row by row, whether the row's input file and output file exist:
/// the first row whose input is missing or whose output is in the way ends
/// the run (codes 4 and 5), as does a row whose directory lines are missing
/// (codes 2 and 3); otherwise (0, "completed copy"). `None` when a row is
/// reached for which no answer was given yet.
pub open spec fn copy_walk(lines: Seq<Seq<char>>, i: int, answers: Seq<(bool, bool)>, j: int) -> Option<(u32, Seq<char>)>
    decreases lines.len() - i,
{
    if i < 0 {
        None
    } else {
        match scan_from(lines, i) {
            ScanStep::Done { .. } => Some((0, "completed copy"@)),
            ScanStep::Stop { code, filename } => Some((code, premature_message(filename))),
            ScanStep::Entry { filename, inputdir, at, .. } => {
                let from = join_dir(inputdir, filename);
                if j < 0 || j >= answers.len() {
                    None
                } else if !answers[j].0 {
                    Some((4, "input file does not exist: --"@ + from + "--"@))
                } else if answers[j].1 {
                    Some((5, "output file exists: "@ + from))
                } else {
                    proof {
                        lemma_scan_from(lines, i);
                    }
                    copy_walk(lines, at + 1, answers, j + 1)
                }
            },
        }
    }
}

/// A copy run: the list walk, the answers given so far about the rows'
/// files, the row waiting for its answer, and the report once the run is over.
pub struct CopyRun {
    scan: ListScan,
    answers: Vec<(bool, bool)>,
    pending: Option<FileEntry>,
    entry_start: usize,
    outcome: Option<(u32, String)>,
}

impl CopyRun {
    /// The lines of the list.
    pub closed spec fn lines(&self) -> Seq<Seq<char>> {
        self.scan.lines()
    }

    /// The answers given so far, one per row reached.
    pub closed spec fn answers(&self) -> Seq<(bool, bool)> {
        self.answers@
    }

    /// The run is over.
    pub closed spec fn over(&self) -> bool {
        self.outcome is Some
    }

    /// The row waiting for its answer, if any.
    pub closed spec fn waiting(&self) -> Option<FileEntry> {
        self.pending
    }

    /// The run's state agrees with the copy report for every way it may go on.
    pub closed spec fn wf(&self) -> bool {
        let lines = self.scan.lines();
        let a = self.answers@;
        &&& self.scan.wf()
        &&& match self.outcome {
            Some(o) => self.pending is None && copy_walk(lines, 0, a, 0) == Some((o.0, o.1@)),
            None => match self.pending {
                None => forall|more: Seq<(bool, bool)>|
                    copy_walk(lines, 0, #[trigger] (a + more), 0) == copy_walk(
                        lines,
                        self.scan.pos(),
                        a + more,
                        a.len() as int,
                    ),
                Some(e) => {
                    &&& self.scan.pos() == e.at + 1
                    &&& step_is(
                        ListStep::Entry(e),
                        scan_from(lines, self.entry_start as int),
                        lines.len(),
                    )
                    &&& forall|more: Seq<(bool, bool)>|
                        copy_walk(lines, 0, #[trigger] (a + more), 0) == copy_walk(
                            lines,
                            self.entry_start as int,
                            a + more,
                            a.len() as int,
                        )
                },
            },
        }
    }

    /// Starts a copy run over `list`.
    pub fn new(list: &str) -> (r: CopyRun)
        ensures
            r.wf(),
            r.lines() == lines_of(list@),
            r.answers() == Seq::<(bool, bool)>::empty(),
            !r.over(),
            r.waiting() is None,
    {
        let scan = ListScan::new(list);
        let r = CopyRun { scan, answers: Vec::new(), pending: None, entry_start: 0, outcome: None };
        assert forall|more: Seq<(bool, bool)>|
            copy_walk(r.scan.lines(), 0, #[trigger] (r.answers@ + more), 0) == copy_walk(
                r.scan.lines(),
                r.scan.pos(),
                r.answers@ + more,
                r.answers@.len() as int,
            ) by {
            assert(r.answers@ + more =~= more);
        }
        r
    }

    /// How many lines the list has.
    pub fn line_count(&self) -> (n: usize)
        requires
            self.wf(),
        ensures
            n == self.lines().len(),
    {
        self.scan.line_count()
    }

    /// Walks on to the next row that names a file. An entry waits for its
    /// answer; the end of the list, or a row whose directory lines are
    /// missing, ends the run.
    pub fn next_row(&mut self) -> (r: ListStep)
        requires
            old(self).wf(),
            !old(self).over(),
            old(self).waiting() is None,
        ensures
            final(self).wf(),
            final(self).lines() == old(self).lines(),
            final(self).answers() == old(self).answers(),
            match r {
                ListStep::Entry(e) => !final(self).over() && final(self).waiting() == Some(e),
                _ => final(self).over() && final(self).waiting() is None,
            },
    {
        let ghost a = self.answers@;
        let ghost lines = self.scan.lines();
        let ghost pos = self.scan.pos();
        proof {
            self.scan.lemma_wf_pos();
        }
        let start = self.scan.position();
        let step = self.scan.next_step();
        match step {
            ListStep::Entry(e) => {
                proof {
                    lemma_scan_from(lines, pos);
                }
                self.entry_start = start;
                self.pending = Some(e.duplicate());
                ListStep::Entry(e)
            },
            ListStep::Finished { at, last } => {
                assert(copy_walk(lines, 0, a + Seq::empty(), 0) == copy_walk(lines, pos, a + Seq::empty(), a.len() as int));
                assert(a + Seq::<(bool, bool)>::empty() =~= a);
                self.outcome = Some(copy_completed());
                ListStep::Finished { at, last }
            },
            ListStep::Stopped { code, message } => {
                assert(copy_walk(lines, 0, a + Seq::empty(), 0) == copy_walk(lines, pos, a + Seq::empty(), a.len() as int));
                assert(a + Seq::<(bool, bool)>::empty() =~= a);
                self.outcome = Some((code, message.clone()));
                ListStep::Stopped { code, message }
            },
        }
    }

    /// Gives the waiting row its answer: whether its input file and its
    /// output file exist. Returns whether the row may be copied; when it may
    /// not, the run is over.
    pub fn answer(&mut self, from_exists: bool, to_exists: bool) -> (go: bool)
        requires
            old(self).wf(),
            old(self).waiting() is Some,
        ensures
            final(self).wf(),
            final(self).lines() == old(self).lines(),
            final(self).answers() == old(self).answers().push((from_exists, to_exists)),
            final(self).waiting() is None,
            go == (from_exists && !to_exists),
            final(self).over() == !go,
    {
        let ghost a = self.answers@;
        let ghost lines = self.scan.lines();
        let ghost es = self.entry_start as int;
        let ghost x = (from_exists, to_exists);
        let e = match self.pending.take() {
            Some(e) => e,
            None => {
                return false;
            },
        };
        self.answers.push((from_exists, to_exists));
        proof {
            lemma_scan_from(lines, es);
            assert forall|more: Seq<(bool, bool)>|
                copy_walk(lines, 0, #[trigger] (a.push(x) + more), 0) == copy_walk(
                    lines,
                    es,
                    a.push(x) + more,
                    a.len() as int,
                ) by {
                assert(a.push(x) + more =~= a + (seq![x] + more));
            }
            assert((a.push(x) + Seq::empty())[a.len() as int] == x);
            assert(a.push(x) + Seq::<(bool, bool)>::empty() =~= a.push(x));
        }
        match copy_verdict(&e, from_exists, to_exists) {
            Some(v) => {
                self.outcome = Some(v);
                false
            },
            None => {
                proof {
                    assert forall|more: Seq<(bool, bool)>|
                        copy_walk(lines, 0, #[trigger] (a.push(x) + more), 0) == copy_walk(
                            lines,
                            self.scan.pos(),
                            a.push(x) + more,
                            (a.len() + 1) as int,
                        ) by {
                        assert(a.push(x) + more =~= a + (seq![x] + more));
                        assert((a.push(x) + more)[a.len() as int] == x);
                        assert(scan_from(lines, es) matches ScanStep::Entry { at, .. } && at == e.at);
                    }
                }
                true
            },
        }
    }

    /// The report of a run that is over: what `copy_walk` gives for the
    /// answers that were given.
    pub fn outcome(&self) -> (r: (u32, String))
        requires
            self.wf(),
            self.over(),
        ensures
            copy_walk(self.lines(), 0, self.answers(), 0) == Some((r.0, r.1@)),
    {
        match &self.outcome {
            Some(o) => (o.0, o.1.clone()),
            None => (0, String::new()),
        }
    }
}

/// On a disk that does not change, a copy run ends with the code the check
/// gives: when each answer (from row `j` on) tells whether the row's input
/// path and output path exist, a run that ends reports the code of
/// `check_walk` for the same lines, and its message when a row's directory
/// lines are missing (codes 2 and 3).
pub proof fn lemma_copy_run_agrees_with_check(
    lines: Seq<Seq<char>>,
    i: int,
    answers: Seq<(bool, bool)>,
    j: int,
    on_disk: spec_fn(Seq<char>) -> bool,
)
    requires
        0 <= i,
        0 <= j,
        copy_walk(lines, i, answers, j) is Some,
        forall|t: int|
            0 <= t && j + t < answers.len() && 2 * t + 1 < walk_paths(lines, i).len()
                ==> #[trigger] answers[j + t] == (
                on_disk(walk_paths(lines, i)[2 * t]),
                on_disk(walk_paths(lines, i)[2 * t + 1]),
            ),
    ensures
        (copy_walk(lines, i, answers, j)->0).0 == check_walk(lines, i, on_disk).0,
        (copy_walk(lines, i, answers, j)->0).0 == 2 || (copy_walk(lines, i, answers, j)->0).0 == 3
            ==> (copy_walk(lines, i, answers, j)->0).1 == check_walk(lines, i, on_disk).1,
    decreases lines.len() - i,
{
    lemma_scan_from(lines, i);
    match scan_from(lines, i) {
        ScanStep::Entry { filename, inputdir, outdir, at, .. } => {
            let ps = walk_paths(lines, i);
            let rest = walk_paths(lines, at + 1);
            assert(ps == seq![join_dir(inputdir, filename), join_dir(outdir, filename)] + rest);
            assert(answers[j + 0] == (on_disk(ps[0]), on_disk(ps[1])));
            if answers[j].0 && !answers[j].1 {
                assert forall|t: int|
                    0 <= t && j + 1 + t < answers.len() && 2 * t + 1 < rest.len()
                        implies #[trigger] answers[j + 1 + t] == (
                        on_disk(rest[2 * t]),
                        on_disk(rest[2 * t + 1]),
                    ) by {
                    assert(answers[j + (t + 1)] == (
                        on_disk(ps[2 * (t + 1)]),
                        on_disk(ps[2 * (t + 1) + 1]),
                    ));
                    assert(ps[2 * (t + 1)] == rest[2 * t]);
                    assert(ps[2 * (t + 1) + 1] == rest[2 * t + 1]);
                }
                lemma_copy_run_agrees_with_check(lines, at + 1, answers, j + 1, on_disk);
            }
        },
        _ => {},
    }
}

/// For a list of at least two lines, a copy run on an unchanging disk ends
/// with the code that checking the list gives, and with the same message when
/// a row's directory lines are missing.
pub proof fn lemma_copy_run_agrees_with_testpress(
    list: Seq<char>,
    answers: Seq<(bool, bool)>,
    on_disk: spec_fn(Seq<char>) -> bool,
)
    requires
        lines_of(list).len() >= 2,
        copy_walk(lines_of(list), 0, answers, 0) is Some,
        forall|t: int|
            0 <= t && t < answers.len() && 2 * t + 1 < walk_paths(lines_of(list), 0).len()
                ==> #[trigger] answers[t] == (
                on_disk(walk_paths(lines_of(list), 0)[2 * t]),
                on_disk(walk_paths(lines_of(list), 0)[2 * t + 1]),
            ),
    ensures
        (copy_walk(lines_of(list), 0, answers, 0)->0).0 == testpress_spec(list, on_disk).0,
        (copy_walk(lines_of(list), 0, answers, 0)->0).0 == 2 || (copy_walk(lines_of(list), 0, answers, 0)->0).0 == 3
            ==> (copy_walk(lines_of(list), 0, answers, 0)->0).1 == testpress_spec(list, on_disk).1,
{
    let lines = lines_of(list);
    assert forall|t: int|
        0 <= t && 0 + t < answers.len() && 2 * t + 1 < walk_paths(lines, 0).len()
            implies #[trigger] answers[0 + t] == (
            on_disk(walk_paths(lines, 0)[2 * t]),
            on_disk(walk_paths(lines, 0)[2 * t + 1]),
        ) by {
        assert(answers[t] == answers[0 + t]);
    }
    lemma_copy_run_agrees_with_check(lines, 0, answers, 0, on_disk);
}

/// The fields of a progress report: the three after `Progress`, when the
/// report has exactly four `|`-separated fields and the first is `Progress`.
pub open spec fn progress_fields_spec(message: Seq<char>) -> Option<(Seq<char>, Seq<char>, Seq<char>)> {
    let f = split_seq(message, "|"@);
    if f.len() == 4 && f[0] == "Progress"@ {
        Some((f[1], f[2], f[3]))
    } else {
        None
    }
}

/// Reads a progress report (see `progress_fields_spec`).
pub fn progress_fields(message: &String) -> (r: Option<(String, String, String)>)
    ensures
        match r {
            Some((a, b, c)) => progress_fields_spec(message@) == Some((a@, b@, c@)),
            None => progress_fields_spec(message@) is None,
        },
{
    let bar = chars_of("|");
    proof {
        reveal_strlit("|");
    }
    let f = split_on(&chars_of(message.as_str()), &bar);
    if f.len() != 4 {
        return None;
    }
    assert(views(f@)[0] == f@[0]@);
    if !same_chars(&f[0], &chars_of("Progress")) {
        return None;
    }
    assert(views(f@)[1] == f@[1]@);
    assert(views(f@)[2] == f@[2]@);
    assert(views(f@)[3] == f@[3]@);
    Some((string_of(&f[1]), string_of(&f[2]), string_of(&f[3])))
}

proof fn lemma_bar_free_digits(d: Seq<char>, rest: Seq<char>)
    requires
        all_digits(d),
        "|"@ == seq!['|'],
    ensures
        forall|k: int| k < d.len() ==> !occurs_at(d + "|"@ + rest, "|"@, k),
{
    assert forall|k: int| k < d.len() implies !occurs_at(d + "|"@ + rest, "|"@, k) by {
        if occurs_at(d + "|"@ + rest, "|"@, k) {
            assert((d + "|"@ + rest).subrange(k, k + 1)[0] == '|');
            assert((d + "|"@ + rest)[k] == d[k]);
            assert(is_digit(d[k]));
        }
    }
}

/// A progress report made of `progress_head` and a remark without `|` is
/// read back as the line reached, the last line's index, and the remark.
pub proof fn lemma_progress_read_back(at: nat, last: nat, remark: Seq<char>)
    requires
        free_of(remark, "|"@),
    ensures
        progress_fields_spec("Progress|"@ + decimal(at) + "|"@ + decimal(last) + "|"@ + remark)
            == Some((decimal(at), decimal(last), remark)),
{
    reveal_strlit("|");
    reveal_strlit("Progress|");
    reveal_strlit("Progress");
    let bar = "|"@;
    assert(bar =~= seq!['|']);
    let p = "Progress"@;
    let d1 = decimal(at);
    let d2 = decimal(last);
    lemma_decimal_digits(at);
    lemma_decimal_digits(last);
    let t2 = d2 + bar + remark;
    let t1 = d1 + bar + t2;
    let t0 = p + bar + t1;
    assert("Progress|"@ + d1 + "|"@ + d2 + "|"@ + remark =~= t0);
    lemma_split_whole(remark, bar);
    lemma_bar_free_digits(d2, remark);
    lemma_split_join(d2, bar, remark);
    lemma_bar_free_digits(d1, t2);
    lemma_split_join(d1, bar, t2);
    assert forall|k: int| k < p.len() implies !occurs_at(p + bar + t1, bar, k) by {
        if occurs_at(p + bar + t1, bar, k) {
            assert((p + bar + t1).subrange(k, k + 1)[0] == '|');
            assert((p + bar + t1)[k] == p[k]);
        }
    }
    lemma_split_join(p, bar, t1);
    assert(split_seq(t0, bar) =~= seq![p, d1, d2, remark]);
}

} // verus!
