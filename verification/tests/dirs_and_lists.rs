use hdcopy4bkup::evaldirs::evaldirs;
use hdcopy4bkup::makelist::{check_range, makelist, try_makelist, HdSource};
use hdcopy4bkup::testpress::{testpress, testpress_paths};

fn s(x: &str) -> String {
    x.to_string()
}

fn ev(f: &str, a: i32, p: &str, b: i32, o: &str) -> (u32, String, String, String) {
    evaldirs(s(f), a, s(p), b, s(o))
}

#[test]
fn evaldirs_no_prefixes_keeps_directory() {
    assert_eq!(ev("/home/a/b", 0, "--", 0, "--"), (0, s(" "), s("/home/a/b"), s("--")));
    assert_eq!(ev("/home/a/b", 3, "--", 2, "--"), (0, s(" "), s("/home/a/b"), s("--")));
}

#[test]
fn evaldirs_zero_indent_prepends_prefix() {
    assert_eq!(
        ev("/home/a/b", 0, "/mnt/x", 0, "/out"),
        (0, s(" "), s("/mnt/x/home/a/b"), s("/out/home/a/b"))
    );
}

#[test]
fn evaldirs_drops_leading_components() {
    assert_eq!(
        ev("/home/a/b", 2, "/mnt", 1, "/out"),
        (0, s(" "), s("/mnt/a/b"), s("/out/home/a/b"))
    );
}

#[test]
fn evaldirs_input_indent_too_large() {
    assert_eq!(
        ev("/home/a/b", 5, "/mnt", 0, "/out"),
        (
            1,
            s("input pre number of 5 greater than number of subdirectories of 4"),
            s("--"),
            s("--")
        )
    );
}

#[test]
fn evaldirs_input_runs_out_of_slashes() {
    assert_eq!(
        ev("/home/a/b", 4, "/mnt", 0, "/out"),
        (2, s("could not split once firstent value b"), s("/mnt/b"), s("--"))
    );
}

#[test]
fn evaldirs_output_indent_too_large() {
    assert_eq!(
        ev("/home/a/b", 0, "--", 6, "/out"),
        (
            2,
            s("output indent of 6 greater than number of subdirectories of 4"),
            s("/home/a/b"),
            s("--")
        )
    );
}

#[test]
fn evaldirs_output_runs_out_of_slashes() {
    assert_eq!(
        ev("a/b", 0, "--", 2, "/o"),
        (2, s("could not split once firstent value b"), s("a/b"), s("/o/b"))
    );
}

#[test]
fn evaldirs_negative_indent_drops_nothing() {
    assert_eq!(ev("a/b", -1, "/p", 0, "--"), (0, s(" "), s("/p/a/b"), s("--")));
}

const LIST: &str = " 1 -- f.txt\n /d\n /in\n /out\n \n ";

#[test]
fn testpress_passes_when_inputs_exist_and_outputs_do_not() {
    assert_eq!(testpress(s(LIST), &vec![s("/in/f.txt")]), (0, s("completed reading list")));
}

#[test]
fn testpress_missing_input() {
    assert_eq!(
        testpress(s(LIST), &vec![]),
        (4, s("input file does not exist: 1 --/in/f.txt--"))
    );
}

#[test]
fn testpress_output_in_the_way() {
    assert_eq!(
        testpress(s(LIST), &vec![s("/in/f.txt"), s("/out/f.txt")]),
        (5, s("output file exists: 1 --/in/f.txt--"))
    );
}

#[test]
fn testpress_short_lists() {
    assert_eq!(testpress(s("abc"), &vec![]), (1, s("List is less than 2 lines")));
    assert_eq!(testpress(s("x -- f\n a"), &vec![]), (2, s("premature end of list for: f")));
    assert_eq!(testpress(s("x -- f\n a\n b"), &vec![]), (3, s("premature end of list for: f")));
    assert_eq!(testpress(s("no rows\nhere"), &vec![]), (0, s("completed reading list")));
}

#[test]
fn testpress_paths_names_both_paths_of_each_row() {
    assert_eq!(testpress_paths(&s(LIST)), vec![s("/in/f.txt"), s("/out/f.txt")]);
    assert_eq!(testpress_paths(&s("x -- f\n a")), Vec::<String>::new());
}

#[test]
fn check_range_errors() {
    let e = |f: &str, t: &str, n: u64| check_range(&s(f), &s(t), n);
    assert_eq!(e("", "5", 10), Err((1, s("********* List: From has no value **********"))));
    assert_eq!(e("x", "5", 10), Err((2, s("********* List: From is not an integer **********"))));
    assert_eq!(e("-99", "5", 10), Err((2, s("********* List: From is not an integer **********"))));
    assert_eq!(e("0", "5", 10), Err((3, s("********* List: From not positive integer **********"))));
    assert_eq!(e("1", "", 10), Err((4, s("********* List: To has no value **********"))));
    assert_eq!(e("1", "y", 10), Err((5, s("********* List: To is not an integer **********"))));
    assert_eq!(e("1", "-4", 10), Err((6, s("********* List: To not positive integer **********"))));
    assert_eq!(e("5", "3", 10), Err((7, s("********* List: From Greater than To **********"))));
    assert_eq!(e("11", "12", 10), Err((8, s("List: From Greater than number of rows"))));
    assert_eq!(e("2", "5", 10), Ok((2, 5)));
    assert_eq!(e("+2", "50", 10), Ok((2, 50)));
}

fn disk(lines: &[&str], read_failed: bool) -> HdSource {
    HdSource {
        inptpre_exists: true,
        outdir_exists: true,
        hd_exists: true,
        lines: lines.iter().map(|l| s(l)).collect(),
        read_failed,
    }
}

const ROW: &str = "\"a.txt\"|x|y|\"/home/u/docs\"|5|6|7\n";

#[test]
fn makelist_builds_rows() {
    let d = disk(&[ROW, "skip|me\n", "b.txt|1|2|/var/b|3|4|5\n"], false);
    let r = makelist(s("/hd"), s("1"), s("3"), 0, s("--"), 0, s("/bk"), 3, &d);
    assert_eq!(
        r,
        (
            0,
            s("List created"),
            s(" 1 -- a.txt\n /home/u/docs\n /home/u/docs\n /bk/home/u/docs\n \n 3 -- b.txt\n /var/b\n /var/b\n /bk/var/b\n \n ")
        )
    );
}

#[test]
fn makelist_only_rows_in_range() {
    let d = disk(&[ROW, "b.txt|1|2|/var/b|3|4|5\n"], false);
    let r = makelist(s("/hd"), s("2"), s("2"), 0, s("--"), 0, s("/bk"), 2, &d);
    assert_eq!(r, (0, s("List created"), s(" 2 -- b.txt\n /var/b\n /var/b\n /bk/var/b\n \n ")));
}

#[test]
fn makelist_row_errors() {
    let d = disk(&["a|b|c|d\n"], false);
    assert_eq!(
        makelist(s("/hd"), s("1"), s("1"), 0, s("--"), 0, s("/bk"), 1, &d),
        (12, s("Hd list row # 1 is invalid length: 4"), s(" "))
    );
    let d = disk(&[ROW], false);
    assert_eq!(
        makelist(s("/hd"), s("1"), s("1"), 9, s("/p"), 0, s("/bk"), 1, &d),
        (
            13,
            s("Hd list row # 1 is invalid because: input pre number of 9 greater than number of subdirectories of 4"),
            s(" 1 -- a.txt\n /home/u/docs\n ")
        )
    );
    let d = disk(&[ROW], true);
    assert_eq!(
        makelist(s("/hd"), s("1"), s("1"), 0, s("--"), 0, s("/bk"), 1, &d).0,
        14
    );
}

#[test]
fn makelist_disk_errors() {
    let mut d = disk(&[ROW], false);
    d.inptpre_exists = false;
    assert_eq!(
        makelist(s("/hd"), s("1"), s("1"), 2, s("/p"), 0, s("/bk"), 1, &d),
        (9, s("input subdirectory /p does not exist"), s(" "))
    );
    d.outdir_exists = false;
    assert_eq!(
        makelist(s("/hd"), s("1"), s("1"), 0, s("/p"), 0, s("/bk"), 1, &d),
        (10, s("output directory /bk does not exist"), s(" "))
    );
    d.outdir_exists = true;
    d.hd_exists = false;
    assert_eq!(
        makelist(s("/hd"), s("1"), s("1"), 0, s("/p"), 0, s("/bk"), 1, &d),
        (11, s("HD list file /hd does not exist"), s(" "))
    );
}

#[test]
fn makelist_unsliceable_field_is_refused() {
    let d = disk(&["\"|x|y|z|5|6|7\n"], false);
    assert_eq!(try_makelist(s("/hd"), s("1"), s("1"), 0, s("--"), 0, s("/bk"), 1, &d), None);
    let d = disk(&["é|x|y|z|5|6|7\n"], false);
    assert_eq!(try_makelist(s("/hd"), s("1"), s("1"), 0, s("--"), 0, s("/bk"), 1, &d), None);
}

#[test]
fn made_list_reads_back() {
    let d = disk(&[ROW, "b.txt|1|2|/var/b|3|4|5\n"], false);
    let (c, _, list) = makelist(s("/hd"), s("1"), s("2"), 1, s("/mnt"), 0, s("/bk"), 2, &d);
    assert_eq!(c, 0);
    assert_eq!(
        testpress_paths(&list),
        vec![s("/mnt/home/u/docs/a.txt"), s("/bk/home/u/docs/a.txt"), s("/mnt/var/b/b.txt"), s("/bk/var/b/b.txt")]
    );
    assert_eq!(
        testpress(list.clone(), &vec![s("/mnt/home/u/docs/a.txt"), s("/mnt/var/b/b.txt")]),
        (0, s("completed reading list"))
    );
}
