use hdcopy4bkup::copying::{copy_completed, copy_verdict, progress_head};
use hdcopy4bkup::listing::{ListScan, ListStep};
use hdcopy4bkup::panel::{first_row_panics_exec, next_range_overflows_exec, Choice, Panel, Tone};
use hdcopy4bkup::tasks::Progstart;
use hdcopy4bkup::text::{
    chars_of, decimal_i64, decimal_u64, parse_i32_chars, parse_i64_chars, split_on, string_of,
    trim_chars,
};

fn s(x: &str) -> String {
    x.to_string()
}

fn c(x: &str) -> Vec<char> {
    x.chars().collect()
}

#[test]
fn parse_follows_std() {
    for t in ["9223372036854775807", "9223372036854775808", "-9223372036854775808", "+", "-", "",
        "12a", "007", "+15", "-0", "99999999999999999999999", "1 "] {
        assert_eq!(parse_i64_chars(&c(t)), t.parse::<i64>().ok(), "{}", t);
        assert_eq!(parse_i32_chars(&c(t)), t.parse::<i32>().ok(), "{}", t);
    }
    assert_eq!(parse_i32_chars(&c("2147483648")), None);
}

#[test]
fn decimal_follows_format() {
    for n in [0i64, 7, 10, 45, -45, i64::MIN, i64::MAX] {
        assert_eq!(string_of(&decimal_i64(n)), format!("{}", n));
    }
    assert_eq!(string_of(&decimal_u64(u64::MAX)), format!("{}", u64::MAX));
}

#[test]
fn parse_reads_back_decimal() {
    for n in [0u64, 1, 17, 4096, 9223372036854775807] {
        assert_eq!(parse_i64_chars(&decimal_u64(n)), Some(n as i64));
    }
}

#[test]
fn trim_and_split_follow_std() {
    for t in ["\t a b \u{3000}", "   ", "", "x", " \n y\u{85}"] {
        assert_eq!(string_of(&trim_chars(&c(t))), t.trim());
    }
    for (t, p) in [("a---b", "--"), ("a -- b -- ", " -- "), ("", "/"), ("/x//y/", "/")] {
        let got: Vec<String> = split_on(&c(t), &c(p)).iter().map(|v| string_of(v)).collect();
        let want: Vec<String> = t.split(p).map(|x| x.to_string()).collect();
        assert_eq!(got, want);
    }
    assert_eq!(string_of(&chars_of("héllo")), "héllo");
}

const LIST: &str = " 1 -- f.txt\n /d\n /in\n /out\n \n ";

#[test]
fn list_scan_walks_rows() {
    let mut scan = ListScan::new(LIST);
    assert_eq!(scan.line_count(), 6);
    match scan.next_step() {
        ListStep::Entry(e) => {
            assert_eq!(e.label, " 1");
            assert_eq!(e.filename, "f.txt");
            assert_eq!(e.inputdir, "/in");
            assert_eq!(e.outdir, "/out");
            assert_eq!(e.fullfrom, "/in/f.txt");
            assert_eq!(e.fullto, "/out/f.txt");
            assert_eq!(e.at, 3);
            assert_eq!(copy_verdict(&e, true, false), None);
            assert_eq!(
                copy_verdict(&e, false, false),
                Some((4, s("input file does not exist: --/in/f.txt--")))
            );
            assert_eq!(copy_verdict(&e, true, true), Some((5, s("output file exists: /in/f.txt"))));
        },
        _ => panic!("expected a row"),
    }
    match scan.next_step() {
        ListStep::Finished { at, last } => {
            assert_eq!((at, last), (6, 5));
        },
        _ => panic!("expected the end"),
    }
}

#[test]
fn list_scan_stops_on_missing_lines() {
    let mut scan = ListScan::new("x -- f\n a\n b");
    match scan.next_step() {
        ListStep::Stopped { code, message } => {
            assert_eq!((code, message), (3, s("premature end of list for: f")));
        },
        _ => panic!("expected a stop"),
    }
}

#[test]
fn copy_reports() {
    assert_eq!(copy_completed(), (0, s("completed copy")));
    assert_eq!(progress_head(3, 5), "Progress|3|5|");
    let _tick = Progstart::new();
}

#[test]
fn panel_starts_with_defaults() {
    let p = Panel::new();
    assert_eq!(p.hd_value, "--");
    assert_eq!(p.from_value, "1");
    assert_eq!(p.to_value, "16");
    assert_eq!(p.msg_value, "no message");
    assert_eq!(p.mess_color, Tone::Green);
    assert_eq!(p.liststr_value, " List button not pressed \n ");
    assert!(!p.test_press);
}

#[test]
fn panel_input_indent_field() {
    let mut p = Panel::new();
    p.on_subinpt(s(""));
    assert_eq!((p.msg_value.as_str(), p.mess_color), ("input subdir not integer", Tone::Red));
    p.on_subinpt(s("abc"));
    assert_eq!(p.msg_value, "input subdir not an integer");
    p.on_subinpt(s("-2"));
    assert_eq!(p.msg_value, "input subdir not positive integer");
    p.on_subinpt(s("3"));
    assert_eq!(p.msg_value, "no input pre subdir value specified: number will be ignored");
    assert_eq!(p.inptsubdir_num, 0);
    p.inptpre_value = s("/mnt");
    p.firstentrydir_value = s("/home/a/b");
    p.on_subinpt(s("2"));
    assert_eq!((p.msg_value.as_str(), p.mess_color), ("input subdir is good integer", Tone::Green));
    assert_eq!(p.inptsubdir_num, 2);
    assert_eq!(p.newinptdir_value, "/mnt/a/b");
    assert_eq!(p.newoutdir_value, "--");
    p.on_subinpt(s("9"));
    assert_eq!(
        (p.msg_value.as_str(), p.mess_color),
        ("input pre number of 9 greater than number of subdirectories of 4", Tone::Red)
    );
}

#[test]
fn panel_output_indent_and_directory() {
    let mut p = Panel::new();
    p.firstentrydir_value = s("/home/a/b");
    p.on_out_chosen(Choice { code: 0, message: s("ok"), path: s("/bk") });
    assert_eq!(p.msg_value, "got out Directory");
    assert_eq!(p.newoutdir_value, "/bk/home/a/b");
    p.on_subout(s("1"));
    assert_eq!(p.msg_value, "ouput subdir is good integer");
    assert_eq!(p.newoutdir_value, "/bk/home/a/b");
    p.on_subout(s("2"));
    assert_eq!(p.newoutdir_value, "/bk/a/b");
    p.on_out_chosen(Choice { code: 3, message: s("cancelled"), path: s("") });
    assert_eq!((p.msg_value.as_str(), p.mess_color), ("cancelled", Tone::Red));
    p.inptsubdir_value = s("1");
    p.on_insub_chosen(Choice { code: 0, message: s(""), path: s("/in") });
    assert_eq!(p.inptsubdir_num, 1);
    assert_eq!(p.newinptdir_value, "/in/home/a/b");
}

#[test]
fn panel_next_range() {
    let mut p = Panel::new();
    p.rows_num = 40;
    assert!(p.advance_range());
    assert_eq!((p.from_value.as_str(), p.to_value.as_str()), ("17", "32"));
    assert!(p.advance_range());
    assert_eq!((p.from_value.as_str(), p.to_value.as_str()), ("33", "48"));
    assert!(!p.advance_range());
    assert_eq!(p.msg_value, "No more rows to list");
    p.from_value = s("x");
    assert!(!p.advance_range());
    assert_eq!(p.msg_value, "From is not an integer");
    p.from_value = s("3");
    p.to_value = s("-1");
    assert!(!p.advance_range());
    assert_eq!(p.msg_value, "From is not positive integer");
    assert!(next_range_overflows_exec(&s("1"), &s("9223372036854775807"), 5));
    assert!(!next_range_overflows_exec(&s("1"), &s("16"), 5));
}

#[test]
fn panel_list_file_chosen() {
    let mut p = Panel::new();
    let lines = vec![s("\"f\"|x|y|\"/home/a/b\"|1|2|3\n"), s("g|x|y|/z|1|2|3\n")];
    assert!(!first_row_panics_exec(&lines));
    p.on_hd_chosen(Choice { code: 0, message: s("picked"), path: s("/l.txt") }, true, &lines, false);
    assert_eq!(p.rows_num, 2);
    assert_eq!(p.hd_value, "/l.txt");
    assert_eq!(p.firstentrydir_value, "/home/a/b");
    assert_eq!(p.newinptdir_value, "/home/a/b");
    assert_eq!(p.msg_value, "got HD list file and retrieved its number of rows");
    let mut q = Panel::new();
    q.on_hd_chosen(Choice { code: 0, message: s("picked"), path: s("/l.txt") }, false, &lines, false);
    assert_eq!(q.msg_value, "HD list file does not exist: /l.txt");
    let mut r = Panel::new();
    r.on_hd_chosen(Choice { code: 0, message: s("picked"), path: s("/l.txt") }, true, &lines, true);
    assert_eq!((r.msg_value.as_str(), r.rows_num), ("error reading Hd list ", 0));
    assert!(first_row_panics_exec(&vec![s("a|b|c|\"|e|f|g\n")]));
}

#[test]
fn panel_check_and_copy() {
    let mut p = Panel::new();
    p.liststr_value = s(LIST);
    assert!(!p.on_copy(&vec![]));
    assert_eq!(p.msg_value, "Test button was not pressed");
    p.on_test(&vec![s("/in/f.txt")]);
    assert!(p.test_press);
    assert_eq!(p.msg_value, "completed reading list");
    assert!(p.on_copy(&vec![s("/in/f.txt")]));
    assert_eq!((p.msg_value.as_str(), p.mess_color), ("Copying just started", Tone::Blue));
    assert!(!p.test_press);
    p.on_copy_done(Some((0, s("completed copy"))));
    assert_eq!((p.msg_value.as_str(), p.mess_color), ("completed copy", Tone::Green));
    p.on_copy_done(None);
    assert_eq!(p.msg_value, "error in copyx copyit routine");
}
