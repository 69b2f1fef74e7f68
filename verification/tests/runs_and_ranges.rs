use hdcopy4bkup::copying::{progress_fields, progress_head, CopyRun};
use hdcopy4bkup::listing::ListStep;
use hdcopy4bkup::makelist::{makelist, makelist_reads_rows, HdSource};
use hdcopy4bkup::panel::{Panel, ScrollReading, Tone};
use hdcopy4bkup::testpress::testpress;

fn s(x: &str) -> String {
    x.to_string()
}

const LIST: &str = " 1 -- f.txt\n /d\n /in\n /out\n \n 2 -- g.txt\n /e\n /in2\n /out2\n \n ";

fn run(list: &str, answers: &[(bool, bool)]) -> (u32, String) {
    let mut r = CopyRun::new(list);
    let mut k = 0;
    loop {
        match r.next_row() {
            ListStep::Entry(_) => {
                let (a, b) = answers[k];
                k += 1;
                if !r.answer(a, b) {
                    break;
                }
            }
            _ => break,
        }
    }
    r.outcome()
}

#[test]
fn copy_run_completes() {
    assert_eq!(run(LIST, &[(true, false), (true, false)]), (0, s("completed copy")));
}

#[test]
fn copy_run_stops_at_first_bad_row() {
    assert_eq!(
        run(LIST, &[(true, false), (false, false)]),
        (4, s("input file does not exist: --/in2/g.txt--"))
    );
    assert_eq!(run(LIST, &[(true, true)]), (5, s("output file exists: /in/f.txt")));
    assert_eq!(run("x -- f\n a\n b", &[]), (3, s("premature end of list for: f")));
}

#[test]
fn copy_run_code_matches_check_on_same_disk() {
    let existing = vec![s("/in/f.txt"), s("/in2/g.txt"), s("/out2/g.txt")];
    let (code, _) = run(LIST, &[(true, false), (true, true)]);
    assert_eq!(code, testpress(s(LIST), &existing).0);
    assert_eq!(code, 5);
}

#[test]
fn check_mark_is_cleared_by_edits() {
    let mut p = Panel::new();
    p.liststr_value = s(" 1 -- f.txt\n /d\n /in\n /out\n \n ");
    p.on_test(&vec![s("/in/f.txt")]);
    assert!(p.test_press);
    p.on_copy_done(Some((0, s("completed copy"))));
    assert!(p.test_press);
    p.on_to_changed(s("20"));
    assert!(!p.test_press);
    p.on_test(&vec![s("/in/f.txt")]);
    p.on_subout(s("1"));
    assert!(!p.test_press);
}

fn disk(lines: &[&str]) -> HdSource {
    HdSource {
        inptpre_exists: true,
        outdir_exists: true,
        hd_exists: true,
        lines: lines.iter().map(|l| s(l)).collect(),
        read_failed: false,
    }
}

#[test]
fn longer_range_extends_list() {
    let d = disk(&["a|x|y|/p/a|1|2|3\n", "b|x|y|/p/b|1|2|3\n", "c|x|y|/p/c|1|2|3\n"]);
    let short = makelist(s("/hd"), s("1"), s("1"), 0, s("--"), 0, s("/bk"), 3, &d);
    let long = makelist(s("/hd"), s("1"), s("3"), 0, s("--"), 0, s("/bk"), 3, &d);
    let tail = makelist(s("/hd"), s("2"), s("3"), 0, s("--"), 0, s("/bk"), 3, &d);
    assert_eq!((short.0, long.0, tail.0), (0, 0, 0));
    assert_eq!(long.2, format!("{}{}", short.2, &tail.2[1..]));
}

#[test]
fn rows_read_only_when_needed() {
    assert!(makelist_reads_rows(&s("1"), &s("2"), 0, 5, false, true, true));
    assert!(!makelist_reads_rows(&s("1"), &s("2"), 1, 5, false, true, true));
    assert!(!makelist_reads_rows(&s("x"), &s("2"), 0, 5, true, true, true));
    assert!(!makelist_reads_rows(&s("1"), &s("2"), 0, 5, true, false, true));
    assert!(!makelist_reads_rows(&s("1"), &s("2"), 0, 5, true, true, false));
}

#[test]
fn progress_report_reads_back() {
    let m = format!("{} elapsed time 0.5 mins at 10:00:00 3 of 5", progress_head(3, 5));
    assert_eq!(
        progress_fields(&m),
        Some((s("3"), s("5"), s(" elapsed time 0.5 mins at 10:00:00 3 of 5")))
    );
    assert_eq!(progress_fields(&s("Progress|1|2")), None);
    assert_eq!(progress_fields(&s("Other|1|2|x")), None);
}

#[test]
fn scroll_and_progress_events() {
    let mut p = Panel::new();
    p.test_press = true;
    p.on_progress_note(s("progress: 1"));
    assert!(p.test_press);
    assert_eq!((p.msg_value.as_str(), p.mess_color), ("progress: 1", Tone::Blue));
    p.on_scroll_edit(ScrollReading::TooSmall);
    assert!(!p.test_press);
    assert_eq!(p.msg_value, "Scroll height value is less than 170.0");
    p.on_scroll_edit(ScrollReading::NotNumber);
    assert_eq!(p.msg_value, "Scroll height value is not a floating point number");
    p.on_scroll_edit(ScrollReading::Good);
    assert_eq!((p.msg_value.as_str(), p.mess_color), ("Good scroll height value", Tone::Green));
    p.on_progress_failed();
    assert_eq!((p.msg_value.as_str(), p.mess_color), ("error in Progstart::pstart routine", Tone::Red));
}

#[test]
fn copy_run_premature_message_matches_check() {
    let list = "x -- f\n a\n b";
    assert_eq!(run(list, &[]), testpress(s(list), &vec![]));
}
