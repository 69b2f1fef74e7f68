//! Reading a copy list back: the rows that name a file, the directory lines
//! that follow each of them, and the checks made before copying.
use vstd::prelude::*;
use crate::evaldirs::join_dir;
use crate::text::{
    append_chars, chars_of, split_on, split_seq, string_of, trim, trim_chars, views,
};

verus! {

/// The lines of a list.
pub open spec fn lines_of(list: Seq<char>) -> Seq<Seq<char>> {
    split_seq(list, "\n"@)
}

/// What separates a row's label from the file name.
pub open spec fn entry_mark() -> Seq<char> {
    " -- "@
}

/// One step through the lines of a list, from a given line on.
pub enum ScanStep {
    /// No row naming a file is left; `at` is where the walk ended.
    Done { at: int },
    /// A row names a file but the list ends before its directory lines.
    Stop { code: u32, filename: Seq<char> },
    /// A row naming a file, with the input directory two lines below it and
    /// the output directory three lines below it (both trimmed); `at` is the
    /// line of the output directory.
    Entry { label: Seq<char>, filename: Seq<char>, inputdir: Seq<char>, outdir: Seq<char>, at: int },
}

/// The next step through `lines` from line `i` on. Lines that do not hold
/// `" -- "` are passed over.
pub open spec fn scan_from(lines: Seq<Seq<char>>, i: int) -> ScanStep
    decreases lines.len() - i,
{
    if i < 0 || i >= lines.len() {
        ScanStep::Done { at: i }
    } else {
        let parts = split_seq(lines[i], entry_mark());
        if parts.len() > 1 {
            if i + 2 >= lines.len() {
                ScanStep::Stop { code: 2, filename: parts[1] }
            } else if i + 3 >= lines.len() {
                ScanStep::Stop { code: 3, filename: parts[1] }
            } else {
                ScanStep::Entry {
                    label: parts[0],
                    filename: parts[1],
                    inputdir: trim(lines[i + 2]),
                    outdir: trim(lines[i + 3]),
                    at: i + 3,
                }
            }
        } else {
            scan_from(lines, i + 1)
        }
    }
}

/// Where a step of the walk lands.
pub proof fn lemma_scan_from(lines: Seq<Seq<char>>, i: int)
    requires
        0 <= i,
    ensures
        match scan_from(lines, i) {
            ScanStep::Done { at } => at == if i <= lines.len() {
                lines.len() as int
            } else {
                i
            },
            ScanStep::Stop { .. } => i < lines.len(),
            ScanStep::Entry { at, .. } => i + 3 <= at < lines.len(),
        },
    decreases lines.len() - i,
{
    if i < lines.len() {
        let parts = split_seq(lines[i], entry_mark());
        if parts.len() <= 1 {
            lemma_scan_from(lines, i + 1);
        }
    }
}

/// The message for a row whose directory lines are missing.
pub open spec fn premature_message(filename: Seq<char>) -> Seq<char> {
    "premature end of list for: "@ + filename
}

/// Whether `p` is one of the paths in `existing`.
pub open spec fn present(existing: Seq<String>, p: Seq<char>) -> bool {
    exists|k: int| 0 <= k < existing.len() && existing[k]@ == p
}

/// What the list check finds from line `i` on, given which paths exist.
pub open spec fn check_walk(lines: Seq<Seq<char>>, i: int, on_disk: spec_fn(Seq<char>) -> bool) -> (
    u32,
    Seq<char>,
)
    decreases lines.len() - i,
{
    if i < 0 {
        (0, "completed reading list"@)
    } else {
        match scan_from(lines, i) {
            ScanStep::Done { .. } => (0, "completed reading list"@),
            ScanStep::Stop { code, filename } => (code, premature_message(filename)),
            ScanStep::Entry { label, filename, inputdir, outdir, at } => {
                let from = join_dir(inputdir, filename);
                let to = join_dir(outdir, filename);
                if !on_disk(from) {
                    (4, "input file does not exist:"@ + label + " --"@ + from + "--"@)
                } else if on_disk(to) {
                    (5, "output file exists:"@ + label + " --"@ + from + "--"@)
                } else {
                    proof {
                        lemma_scan_from(lines, i);
                    }
                    check_walk(lines, at + 1, on_disk)
                }
            },
        }
    }
}

/// What the list check reports for `list`, given which paths exist.
pub open spec fn testpress_spec(list: Seq<char>, on_disk: spec_fn(Seq<char>) -> bool) -> (
    u32,
    Seq<char>,
) {
    let lines = lines_of(list);
    if lines.len() < 2 {
        (1, "List is less than 2 lines"@)
    } else {
        check_walk(lines, 0, on_disk)
    }
}

/// The paths the list check looks at from line `i` on: for each row naming
/// a file, its full input path and then its full output path.
pub open spec fn walk_paths(lines: Seq<Seq<char>>, i: int) -> Seq<Seq<char>>
    decreases lines.len() - i,
{
    if i < 0 {
        seq![]
    } else {
        match scan_from(lines, i) {
            ScanStep::Entry { filename, inputdir, outdir, at, .. } => {
                proof {
                    lemma_scan_from(lines, i);
                }
                seq![join_dir(inputdir, filename), join_dir(outdir, filename)] + walk_paths(
                    lines,
                    at + 1,
                )
            },
            _ => seq![],
        }
    }
}

/// A row naming a file, with what the list says about it.
pub struct FileEntry {
    /// The text before `" -- "` (the row number in lists made here).
    pub label: String,
    pub filename: String,
    pub inputdir: String,
    pub outdir: String,
    /// The input directory, `/` and the file name.
    pub fullfrom: String,
    /// The output directory, `/` and the file name.
    pub fullto: String,
    /// The line of the output directory.
    pub at: usize,
}

impl FileEntry {
    /// A copy of the entry.
    pub fn duplicate(&self) -> (r: FileEntry)
        ensures
            r == *self,
    {
        FileEntry {
            label: self.label.clone(),
            filename: self.filename.clone(),
            inputdir: self.inputdir.clone(),
            outdir: self.outdir.clone(),
            fullfrom: self.fullfrom.clone(),
            fullto: self.fullto.clone(),
            at: self.at,
        }
    }
}

/// A step through a list, as handed to the caller.
pub enum ListStep {
    /// The walk is over; `at` is where it ended and `last` the last line's index.
    Finished { at: usize, last: usize },
    /// The list ends before a row's directory lines.
    Stopped { code: u32, message: String },
    /// The next row naming a file.
    Entry(FileEntry),
}

/// `r` is the step `s` of the walk.
pub open spec fn step_is(r: ListStep, s: ScanStep, n: nat) -> bool {
    match (r, s) {
        (ListStep::Finished { at, last }, ScanStep::Done { at: a }) => at == a && last + 1 == n,
        (ListStep::Stopped { code, message }, ScanStep::Stop { code: c, filename }) => code == c
            && message@ == premature_message(filename),
        (
            ListStep::Entry(e),
            ScanStep::Entry { label, filename, inputdir, outdir, at },
        ) => e.label@ == label && e.filename@ == filename && e.inputdir@ == inputdir
            && e.outdir@ == outdir && e.fullfrom@ == join_dir(inputdir, filename) && e.fullto@
            == join_dir(outdir, filename) && e.at == at,
        _ => false,
    }
}

/// A walk through the lines of a list.
pub struct ListScan {
    lines: Vec<Vec<char>>,
    pos: usize,
}

impl ListScan {
    /// The lines being walked.
    pub closed spec fn lines(&self) -> Seq<Seq<char>> {
        views(self.lines@)
    }

    /// The line the next step starts from.
    pub closed spec fn pos(&self) -> int {
        self.pos as int
    }

    /// The walk is within its lines.
    pub closed spec fn wf(&self) -> bool {
        self.pos <= self.lines.len() && self.lines.len() >= 1
    }

    /// A walk that is within its lines starts from one of them, or just past
    /// the last.
    pub proof fn lemma_wf_pos(&self)
        requires
            self.wf(),
        ensures
            0 <= self.pos() <= self.lines().len(),
            self.lines().len() >= 1,
    {
    }

    /// Starts a walk at the first line of `list`.
    pub fn new(list: &str) -> (r: ListScan)
        ensures
            r.wf(),
            r.lines() == lines_of(list@),
            r.pos() == 0,
    {
        let v = chars_of(list);
        let nl = chars_of("\n");
        proof {
            reveal_strlit("\n");
        }
        ListScan { lines: split_on(&v, &nl), pos: 0 }
    }

    /// How many lines the list has.
    pub fn line_count(&self) -> (n: usize)
        ensures
            n == self.lines().len(),
    {
        self.lines.len()
    }

    /// The line the next step starts from.
    pub fn position(&self) -> (p: usize)
        ensures
            p == self.pos(),
    {
        self.pos
    }

    /// Takes the next step; after a row naming a file the walk goes on from
    /// the line below its output directory.
    pub fn next_step(&mut self) -> (r: ListStep)
        requires
            old(self).wf(),
        ensures
            final(self).wf(),
            final(self).lines() == old(self).lines(),
            step_is(r, scan_from(old(self).lines(), old(self).pos()), old(self).lines().len()),
            match r {
                ListStep::Entry(e) => final(self).pos() == e.at + 1,
                _ => final(self).pos() == old(self).pos(),
            },
    {
        let mark = chars_of(" -- ");
        proof {
            reveal_strlit(" -- ");
        }
        let n = self.lines.len();
        let mut i = self.pos;
        while i < n
            invariant
                mark@ == entry_mark(),
                mark.len() == 4,
                n == self.lines.len(),
                n >= 1,
                self.lines == old(self).lines,
                self.pos == old(self).pos,
                self.pos <= i <= n,
                scan_from(self.lines(), self.pos as int) == scan_from(self.lines(), i as int),
            decreases n - i,
        {
            let parts = split_on(&self.lines[i], &mark);
            assert(self.lines()[i as int] == self.lines@[i as int]@);
            assert(views(parts@)[0] == parts@[0]@);
            if parts.len() > 1 {
                assert(views(parts@)[1] == parts@[1]@);
                if n - i <= 2 {
                    let mut msg = chars_of("premature end of list for: ");
                    append_chars(&mut msg, &parts[1]);
                    return ListStep::Stopped { code: 2, message: string_of(&msg) };
                } else if n - i <= 3 {
                    let mut msg = chars_of("premature end of list for: ");
                    append_chars(&mut msg, &parts[1]);
                    return ListStep::Stopped { code: 3, message: string_of(&msg) };
                } else {
                    let inputdir = trim_chars(&self.lines[i + 2]);
                    let outdir = trim_chars(&self.lines[i + 3]);
                    assert(self.lines()[i + 2] == self.lines@[i + 2]@);
                    assert(self.lines()[i + 3] == self.lines@[i + 3]@);
                    let slash = chars_of("/");
                    let mut from = inputdir.clone();
                    append_chars(&mut from, &slash);
                    append_chars(&mut from, &parts[1]);
                    let mut to = outdir.clone();
                    append_chars(&mut to, &slash);
                    append_chars(&mut to, &parts[1]);
                    self.pos = i + 4;
                    return ListStep::Entry(
                        FileEntry {
                            label: string_of(&parts[0]),
                            filename: string_of(&parts[1]),
                            inputdir: string_of(&inputdir),
                            outdir: string_of(&outdir),
                            fullfrom: string_of(&from),
                            fullto: string_of(&to),
                            at: i + 3,
                        },
                    );
                }
            }
            i = i + 1;
        }
        ListStep::Finished { at: i, last: n - 1 }
    }
}

} // verus!
