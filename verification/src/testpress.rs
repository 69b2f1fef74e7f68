//! The check made before copying: every listed input file is there and no
//! output file is in the way.
use vstd::prelude::*;
use crate::evaldirs::join_dir;
use crate::listing::{
    check_walk, lemma_scan_from, lines_of, present, scan_from, testpress_spec, walk_paths,
    ListScan, ListStep, ScanStep,
};
use crate::text::{append_chars, chars_of, string_of};

verus! {

/// The views of a sequence of strings.
pub open spec fn string_views(r: Seq<String>) -> Seq<Seq<char>> {
    r.map_values(|x: String| x@)
}

/// The paths of `existing`, as a view of the disk.
pub open spec fn listed(existing: Seq<String>) -> spec_fn(Seq<char>) -> bool {
    |p: Seq<char>| present(existing, p)
}

/// Whether `p` is one of `existing`.
fn is_listed(existing: &Vec<String>, p: &String) -> (b: bool)
    ensures
        b == present(existing@, p@),
{
    let mut k: usize = 0;
    while k < existing.len()
        invariant
            k <= existing.len(),
            forall|j: int| 0 <= j < k ==> existing@[j]@ != p@,
        decreases existing.len() - k,
    {
        if existing[k] == *p {
            return true;
        }
        k = k + 1;
    }
    false
}

/// `a` followed by `b` and `c`.
fn text3(a: &str, b: &String, c: &str) -> (r: Vec<char>)
    ensures
        r@ == a@ + b@ + c@,
{
    let mut r = chars_of(a);
    append_chars(&mut r, &chars_of(b.as_str()));
    append_chars(&mut r, &chars_of(c));
    r
}

/// Checks a copy list before copying. `existing` holds the paths known to
/// exist (only those named by `testpress_paths` are looked at). Returns 0 and
/// "completed reading list" when every row's input file exists and its output
/// file does not; otherwise the code and message of the first problem: 1 for
/// a list of fewer than 2 lines, 2 or 3 for a row whose directory lines are
/// missing, 4 for a missing input file, 5 for an output file in the way.
pub fn testpress(liststr_value: String, existing: &Vec<String>) -> (r: (u32, String))
    ensures
        (r.0, r.1@) == testpress_spec(liststr_value@, listed(existing@)),
{
    let ghost on_disk = listed(existing@);
    let mut scan = ListScan::new(liststr_value.as_str());
    let ghost lines = lines_of(liststr_value@);
    if scan.line_count() < 2 {
        return (1, string_of(&chars_of("List is less than 2 lines")));
    }
    loop
        invariant
            scan.wf(),
            scan.lines() == lines,
            lines == lines_of(liststr_value@),
            on_disk == listed(existing@),
            lines.len() >= 2,
            0 <= scan.pos() <= lines.len(),
            check_walk(lines, 0, on_disk) == check_walk(lines, scan.pos(), on_disk),
        decreases lines.len() - scan.pos(),
    {
        let ghost pos = scan.pos();
        proof {
            lemma_scan_from(lines, pos);
        }
        match scan.next_step() {
            ListStep::Finished { .. } => {
                return (0, string_of(&chars_of("completed reading list")));
            },
            ListStep::Stopped { code, message } => {
                return (code, message);
            },
            ListStep::Entry(e) => {
                if !is_listed(existing, &e.fullfrom) {
                    let mut m = text3("input file does not exist:", &e.label, " --");
                    append_chars(&mut m, &chars_of(e.fullfrom.as_str()));
                    append_chars(&mut m, &chars_of("--"));
                    assert(m@ =~= "input file does not exist:"@ + e.label@ + " --"@ + e.fullfrom@
                        + "--"@);
                    return (4, string_of(&m));
                }
                if is_listed(existing, &e.fullto) {
                    let mut m = text3("output file exists:", &e.label, " --");
                    append_chars(&mut m, &chars_of(e.fullfrom.as_str()));
                    append_chars(&mut m, &chars_of("--"));
                    assert(m@ =~= "output file exists:"@ + e.label@ + " --"@ + e.fullfrom@
                        + "--"@);
                    return (5, string_of(&m));
                }
            },
        }
    }
}

/// The paths the check looks at, in order: each row's full input path and
/// then its full output path, up to the first row whose directory lines are
/// missing.
pub fn testpress_paths(liststr_value: &String) -> (r: Vec<String>)
    ensures
        string_views(r@) == walk_paths(lines_of(liststr_value@), 0),
{
    let mut scan = ListScan::new(liststr_value.as_str());
    let ghost lines = lines_of(liststr_value@);
    let mut r: Vec<String> = Vec::new();
    loop
        invariant
            scan.wf(),
            scan.lines() == lines,
            lines == lines_of(liststr_value@),
            0 <= scan.pos() <= lines.len(),
            string_views(r@) + walk_paths(lines, scan.pos()) == walk_paths(lines, 0),
        decreases lines.len() - scan.pos(),
    {
        let ghost pos = scan.pos();
        proof {
            lemma_scan_from(lines, pos);
        }
        match scan.next_step() {
            ListStep::Entry(e) => {
                let ghost before = string_views(r@);
                r.push(e.fullfrom);
                r.push(e.fullto);
                assert(string_views(r@) =~= before + seq![
                    join_dir(e.inputdir@, e.filename@),
                    join_dir(e.outdir@, e.filename@),
                ]);
            },
            _ => {
                assert(walk_paths(lines, pos) =~= Seq::<Seq<char>>::empty());
                assert(string_views(r@) =~= string_views(r@) + walk_paths(lines, pos));
                return r;
            },
        }
    }
}

/// The check's verdict depends on which paths exist only through the paths
/// that `walk_paths` names: two views of the disk that agree on those paths
/// give the same verdict.
pub proof fn lemma_check_reads_only_listed_paths(
    lines: Seq<Seq<char>>,
    i: int,
    f: spec_fn(Seq<char>) -> bool,
    g: spec_fn(Seq<char>) -> bool,
)
    requires
        0 <= i,
        forall|k: int|
            0 <= k < walk_paths(lines, i).len() ==> f(#[trigger] walk_paths(lines, i)[k]) == g(
                walk_paths(lines, i)[k],
            ),
    ensures
        check_walk(lines, i, f) == check_walk(lines, i, g),
    decreases lines.len() - i,
{
    lemma_scan_from(lines, i);
    match scan_from(lines, i) {
        ScanStep::Entry { filename, inputdir, outdir, at, .. } => {
            let ps = walk_paths(lines, i);
            assert(ps[0] == join_dir(inputdir, filename));
            assert(ps[1] == join_dir(outdir, filename));
            assert forall|k: int|
                0 <= k < walk_paths(lines, at + 1).len() implies f(
                #[trigger] walk_paths(lines, at + 1)[k],
            ) == g(walk_paths(lines, at + 1)[k]) by {
                assert(ps[k + 2] == walk_paths(lines, at + 1)[k]);
            }
            lemma_check_reads_only_listed_paths(lines, at + 1, f, g);
        },
        _ => {},
    }
}

/// A list that passes the check has, for every row naming a file, its input
/// file present and its output file absent: each path pair the check looks
/// at is an existing input and a free output.
pub proof fn lemma_passed_check_clears_each_row(
    lines: Seq<Seq<char>>,
    i: int,
    on_disk: spec_fn(Seq<char>) -> bool,
)
    requires
        0 <= i,
        check_walk(lines, i, on_disk).0 == 0,
    ensures
        walk_paths(lines, i).len() % 2 == 0,
        forall|k: int|
            0 <= k && 2 * k + 1 < walk_paths(lines, i).len() ==> on_disk(
                #[trigger] walk_paths(lines, i)[2 * k],
            ) && !on_disk(walk_paths(lines, i)[2 * k + 1]),
    decreases lines.len() - i,
{
    lemma_scan_from(lines, i);
    match scan_from(lines, i) {
        ScanStep::Entry { filename, inputdir, outdir, at, .. } => {
            lemma_passed_check_clears_each_row(lines, at + 1, on_disk);
            let ps = walk_paths(lines, i);
            let rest = walk_paths(lines, at + 1);
            assert(ps == seq![join_dir(inputdir, filename), join_dir(outdir, filename)] + rest);
            assert forall|k: int| 0 <= k && 2 * k + 1 < ps.len() implies on_disk(
                #[trigger] ps[2 * k],
            ) && !on_disk(ps[2 * k + 1]) by {
                if k > 0 {
                    assert(ps[2 * k] == rest[2 * (k - 1)]);
                    assert(ps[2 * k + 1] == rest[2 * (k - 1) + 1]);
                }
            }
        },
        _ => {},
    }
}

} // verus!
