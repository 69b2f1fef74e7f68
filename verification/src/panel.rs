//! The state behind the copy-list window and what each of its events does to
//! it. Dialogs, file reading, copying and the progress bar are the caller's:
//! each handler here takes what they produced.
use vstd::prelude::*;
use crate::evaldirs::{evaldirs, evaldirs_spec, output_side, unset};
use crate::listing::testpress_spec;
use crate::makelist::{
    bound_value, makelist_spec, range_check, try_makelist, unquote, unquote_ok, HdSource,
};
use crate::testpress::{listed, string_views, testpress};
use crate::text::{
    append_chars, chars_of, decimal, decimal_i64, decimal_u64, lemma_parse_decimal, parse_i32,
    parse_i32_chars,
    parse_i64_chars, same_chars, split_on, split_seq, string_of, subrange_of,
};

verus! {

/// The colour of the message line.
#[derive(Clone, Copy, PartialEq, Eq, Structural, Debug)]
pub enum Tone {
    Green,
    Red,
    Blue,
}

/// The window's state, as values.
pub struct PanelView {
    pub hd: Seq<char>,
    pub inptpre: Seq<char>,
    pub inptsubdir_text: Seq<char>,
    pub outdir: Seq<char>,
    pub outsubdir_text: Seq<char>,
    pub firstentrydir: Seq<char>,
    pub newinptdir: Seq<char>,
    pub newoutdir: Seq<char>,
    pub tone: Tone,
    pub msg: Seq<char>,
    pub list: Seq<char>,
    pub inptsubdir_num: i32,
    pub outsubdir_num: i32,
    pub rows_num: u64,
    pub test_press: bool,
    pub from: Seq<char>,
    pub to: Seq<char>,
}

/// The window's state: the list file, the input prefix and output
/// directories with their indent numbers, the first entry's directory and
/// where it goes, the message and its colour, the current list, the row
/// count, whether the list passed its check, and the range of rows to list.
pub struct Panel {
    pub hd_value: String,
    pub inptpre_value: String,
    pub inptsubdir_value: String,
    pub outdir_value: String,
    pub outsubdir_value: String,
    pub firstentrydir_value: String,
    pub newinptdir_value: String,
    pub newoutdir_value: String,
    pub mess_color: Tone,
    pub msg_value: String,
    pub liststr_value: String,
    pub inptsubdir_num: i32,
    pub outsubdir_num: i32,
    pub rows_num: u64,
    pub test_press: bool,
    pub from_value: String,
    pub to_value: String,
}

impl View for Panel {
    type V = PanelView;

    open spec fn view(&self) -> PanelView {
        PanelView {
            hd: self.hd_value@,
            inptpre: self.inptpre_value@,
            inptsubdir_text: self.inptsubdir_value@,
            outdir: self.outdir_value@,
            outsubdir_text: self.outsubdir_value@,
            firstentrydir: self.firstentrydir_value@,
            newinptdir: self.newinptdir_value@,
            newoutdir: self.newoutdir_value@,
            tone: self.mess_color,
            msg: self.msg_value@,
            list: self.liststr_value@,
            inptsubdir_num: self.inptsubdir_num,
            outsubdir_num: self.outsubdir_num,
            rows_num: self.rows_num,
            test_press: self.test_press,
            from: self.from_value@,
            to: self.to_value@,
        }
    }
}

/// The number an indent field writes, or -99 when it writes none
/// (`parse().unwrap_or(-99)`).
pub open spec fn indent_value(s: Seq<char>) -> i32 {
    match parse_i32(s) {
        Some(v) => v,
        None => -99i32,
    }
}

/// The state after the entry directory's new places are worked out again:
/// they are taken when `evaldirs` succeeds, else its message is shown in red.
pub open spec fn refreshed(v: PanelView) -> PanelView {
    let e = evaldirs_spec(v.firstentrydir, v.inptsubdir_num, v.inptpre, v.outsubdir_num, v.outdir);
    if e.0 == 0 {
        PanelView { newinptdir: e.2, newoutdir: e.3, ..v }
    } else {
        PanelView { msg: e.1, tone: Tone::Red, ..v }
    }
}

/// The state after the input indent field is set to `value`.
pub open spec fn subinpt_spec(v: PanelView, value: Seq<char>) -> PanelView {
    let v1 = PanelView { test_press: false, inptsubdir_text: value, ..v };
    if value.len() == 0 {
        PanelView { inptsubdir_num: 0, msg: "input subdir not integer"@, tone: Tone::Red, ..v1 }
    } else if indent_value(value) == -99 {
        PanelView { inptsubdir_num: 0, msg: "input subdir not an integer"@, tone: Tone::Red, ..v1 }
    } else if indent_value(value) < 0 {
        PanelView {
            inptsubdir_num: 0,
            msg: "input subdir not positive integer"@,
            tone: Tone::Red,
            ..v1
        }
    } else if v1.inptpre == unset() {
        PanelView {
            inptsubdir_num: 0,
            msg: "no input pre subdir value specified: number will be ignored"@,
            tone: Tone::Red,
            ..v1
        }
    } else {
        refreshed(
            PanelView {
                inptsubdir_num: indent_value(value),
                msg: "input subdir is good integer"@,
                tone: Tone::Green,
                ..v1
            },
        )
    }
}

/// The state after the output indent field is set to `value`.
pub open spec fn subout_spec(v: PanelView, value: Seq<char>) -> PanelView {
    let v1 = PanelView { test_press: false, outsubdir_text: value, ..v };
    if value.len() == 0 {
        PanelView { outsubdir_num: 0, msg: "output subdir not integer"@, tone: Tone::Red, ..v1 }
    } else if indent_value(value) == -99 {
        PanelView { outsubdir_num: 0, msg: "output subdir not an integer"@, tone: Tone::Red, ..v1 }
    } else if indent_value(value) < 0 {
        PanelView {
            outsubdir_num: 0,
            msg: "output subdir not positive integer"@,
            tone: Tone::Red,
            ..v1
        }
    } else {
        refreshed(
            PanelView {
                outsubdir_num: indent_value(value),
                msg: "ouput subdir is good integer"@,
                tone: Tone::Green,
                ..v1
            },
        )
    }
}

/// What a directory or file dialog gave: a code (0 when a choice was made),
/// a message, and the chosen path.
pub struct Choice {
    pub code: u32,
    pub message: String,
    pub path: String,
}

/// The state after a new output directory was chosen.
pub open spec fn out_chosen_spec(v: PanelView, code: u32, message: Seq<char>, path: Seq<char>) -> PanelView {
    let v1 = PanelView { test_press: false, ..v };
    if code == 0 {
        refreshed(PanelView { tone: Tone::Green, msg: "got out Directory"@, outdir: path, ..v1 })
    } else {
        PanelView { tone: Tone::Red, msg: message, ..v1 }
    }
}

/// The state after a new input prefix directory was chosen; the input
/// indent field's number is taken when it is positive.
pub open spec fn insub_chosen_spec(v: PanelView, code: u32, message: Seq<char>, path: Seq<char>) -> PanelView {
    let v1 = PanelView { test_press: false, ..v };
    if code == 0 {
        let isd = indent_value(v1.inptsubdir_text);
        let v2 = if isd > 0 {
            PanelView { inptsubdir_num: isd, ..v1 }
        } else {
            v1
        };
        refreshed(PanelView { tone: Tone::Green, msg: "got out Directory"@, inptpre: path, ..v2 })
    } else {
        PanelView { tone: Tone::Red, msg: message, ..v1 }
    }
}

/// The fields of a list file row.
pub open spec fn row_fields(line: Seq<char>) -> Seq<Seq<char>> {
    split_seq(line, "|"@)
}

/// Slicing the directory field of the list file's first row panics.
pub open spec fn first_row_panics(lines: Seq<Seq<char>>) -> bool {
    lines.len() > 0 && row_fields(lines[0]).len() >= 7 && !unquote_ok(row_fields(lines[0])[3])
}

/// The state after the list file's first row was read: its directory is the
/// first entry directory, whose new places are worked out; the flag tells
/// whether that went well.
pub open spec fn first_row_effect(v: PanelView, line: Seq<char>) -> (PanelView, bool) {
    let fields = row_fields(line);
    if fields.len() < 7 {
        (
            PanelView {
                msg: "Hd list row is invalid length: "@ + decimal(fields.len()),
                tone: Tone::Green,
                ..v
            },
            true,
        )
    } else {
        let dir = unquote(fields[3]);
        let v1 = PanelView { firstentrydir: dir, ..v };
        let e = evaldirs_spec(dir, v1.inptsubdir_num, v1.inptpre, v1.outsubdir_num, v1.outdir);
        if e.0 == 0 {
            (PanelView { newinptdir: e.2, newoutdir: e.3, ..v1 }, true)
        } else {
            (PanelView { msg: e.1, tone: Tone::Red, ..v1 }, false)
        }
    }
}

/// The state after a list file was chosen: `exists` tells whether it is
/// there, `lines` are its lines as read, and `read_failed` whether reading
/// stopped on an error after them. The row count is taken only when the
/// whole file was read and its first row went well.
pub open spec fn hd_chosen_spec(
    v: PanelView,
    code: u32,
    message: Seq<char>,
    path: Seq<char>,
    exists: bool,
    lines: Seq<Seq<char>>,
    read_failed: bool,
) -> PanelView {
    let v1 = PanelView { test_press: false, msg: message, ..v };
    if code != 0 {
        PanelView { tone: Tone::Red, ..v1 }
    } else if !exists {
        PanelView { tone: Tone::Red, msg: "HD list file does not exist: "@ + path, ..v1 }
    } else {
        let v2 = PanelView { tone: Tone::Green, hd: path, rows_num: 0, ..v1 };
        let (v3, ok) = if lines.len() == 0 {
            (v2, true)
        } else {
            first_row_effect(v2, lines[0])
        };
        if !ok {
            v3
        } else if read_failed {
            PanelView { msg: "error reading Hd list "@, tone: Tone::Red, ..v3 }
        } else {
            PanelView {
                rows_num: lines.len() as u64,
                tone: Tone::Green,
                msg: "got HD list file and retrieved its number of rows"@,
                ..v3
            }
        }
    }
}

/// The state after the list was checked with the given verdict.
pub open spec fn checked_spec(v: PanelView, verdict: (u32, Seq<char>)) -> PanelView {
    PanelView {
        msg: verdict.1,
        test_press: verdict.0 == 0,
        tone: if verdict.0 == 0 {
            Tone::Green
        } else {
            Tone::Red
        },
        ..v
    }
}

/// The state after the copy button, and whether copying starts: only after
/// a passed check, and when the list passes it again.
pub open spec fn copy_press_spec(v: PanelView, on_disk: spec_fn(Seq<char>) -> bool) -> (PanelView, bool) {
    if v.test_press {
        let verdict = testpress_spec(v.list, on_disk);
        if verdict.0 == 0 {
            (
                PanelView {
                    test_press: false,
                    msg: "Copying just started"@,
                    tone: Tone::Blue,
                    ..v
                },
                true,
            )
        } else {
            (PanelView { test_press: false, msg: verdict.1, tone: Tone::Red, ..v }, false)
        }
    } else {
        (PanelView { msg: "Test button was not pressed"@, tone: Tone::Red, ..v }, false)
    }
}

/// The state after a copy run ended with `outcome` (`None` when the run
/// itself failed).
pub open spec fn copy_done_spec(v: PanelView, outcome: Option<(u32, Seq<char>)>) -> PanelView {
    match outcome {
        Some((code, message)) => PanelView {
            msg: message,
            tone: if code == 0 {
                Tone::Green
            } else {
                Tone::Red
            },
            ..v
        },
        None => PanelView { msg: "error in copyx copyit routine"@, tone: Tone::Red, ..v },
    }
}

/// The list result for the current settings and disk.
pub open spec fn list_result(v: PanelView, disk: HdSource) -> Option<(u32, Seq<char>, Seq<char>)> {
    makelist_spec(
        v.hd,
        v.from,
        v.to,
        v.inptsubdir_num,
        v.inptpre,
        v.outsubdir_num,
        v.outdir,
        v.rows_num,
        disk,
    )
}

/// The state after the list was made with the given result: the list is
/// taken when the code is 0, and the message is shown either way.
pub open spec fn listed_spec(v: PanelView, r: (u32, Seq<char>, Seq<char>)) -> PanelView {
    if r.0 == 0 {
        PanelView { list: r.2, tone: Tone::Green, msg: r.1, ..v }
    } else {
        PanelView { tone: Tone::Red, msg: r.1, ..v }
    }
}

/// The next range of rows, as wide as the current one and starting right
/// after it, or the message that says why there is none.
pub open spec fn next_range(from: Seq<char>, to: Seq<char>, rows: u64) -> Result<(int, int), Seq<char>> {
    let f = bound_value(from) as int;
    let t = bound_value(to) as int;
    if from.len() == 0 {
        Err("From has no value"@)
    } else if f <= 0 {
        if f == -99 {
            Err("From is not an integer"@)
        } else {
            Err("From is not positive integer"@)
        }
    } else if to.len() == 0 {
        Err("To has no value"@)
    } else if t <= 0 {
        if t == -99 {
            Err("To is not an integer"@)
        } else {
            Err("From is not positive integer"@)
        }
    } else if t < f {
        Err("From Greater than To"@)
    } else if t + 1 > (rows as i64) {
        Err("No more rows to list"@)
    } else {
        Ok((t + 1, t + 1 + t - f))
    }
}

/// Working out the next range overflows `i64` (its additions would panic).
pub open spec fn next_range_overflows(from: Seq<char>, to: Seq<char>, rows: u64) -> bool {
    let f = bound_value(from) as int;
    let t = bound_value(to) as int;
    &&& from.len() > 0
    &&& f > 0
    &&& to.len() > 0
    &&& t > 0
    &&& t >= f
    &&& (t == i64::MAX || (t + 1 <= (rows as i64) && t + 1 + t > i64::MAX))
}

/// The state after the next range was asked for, and whether a list is to
/// be made for it.
pub open spec fn advance_spec(v: PanelView) -> (PanelView, bool) {
    let v1 = PanelView { test_press: false, ..v };
    match next_range(v.from, v.to, v.rows_num) {
        Err(m) => (PanelView { msg: m, tone: Tone::Red, ..v1 }, false),
        Ok((f, t)) => (PanelView { from: decimal(f as nat), to: decimal(t as nat), ..v1 }, true),
    }
}

impl Panel {
    /// The state the window opens with.
    pub fn new() -> (p: Panel)
        ensures
            p@.hd == unset(),
            p@.inptpre == unset(),
            p@.outdir == unset(),
            p@.firstentrydir == unset(),
            p@.newinptdir == unset(),
            p@.newoutdir == unset(),
            p@.inptsubdir_text == "0"@,
            p@.outsubdir_text == "0"@,
            p@.from == "1"@,
            p@.to == "16"@,
            p@.msg == "no message"@,
            p@.tone == Tone::Green,
            p@.list == " List button not pressed \n "@,
            p@.inptsubdir_num == 0,
            p@.outsubdir_num == 0,
            p@.rows_num == 0,
            !p@.test_press,
    {
        Panel {
            hd_value: string_of(&chars_of("--")),
            inptpre_value: string_of(&chars_of("--")),
            inptsubdir_value: string_of(&chars_of("0")),
            outdir_value: string_of(&chars_of("--")),
            outsubdir_value: string_of(&chars_of("0")),
            firstentrydir_value: string_of(&chars_of("--")),
            newinptdir_value: string_of(&chars_of("--")),
            newoutdir_value: string_of(&chars_of("--")),
            mess_color: Tone::Green,
            msg_value: string_of(&chars_of("no message")),
            liststr_value: string_of(&chars_of(" List button not pressed \n ")),
            inptsubdir_num: 0,
            outsubdir_num: 0,
            rows_num: 0,
            test_press: false,
            from_value: string_of(&chars_of("1")),
            to_value: string_of(&chars_of("16")),
        }
    }

    fn set_message(&mut self, text: &str, tone: Tone)
        ensures
            final(self)@ == (PanelView { msg: text@, tone, ..old(self)@ }),
    {
        self.msg_value = string_of(&chars_of(text));
        self.mess_color = tone;
    }

    /// Works out the entry directory's new places again (see `refreshed`).
    pub fn refresh_dirs(&mut self)
        ensures
            final(self)@ == refreshed(old(self)@),
    {
        let (code, msg, newin, newout) = evaldirs(
            self.firstentrydir_value.clone(),
            self.inptsubdir_num,
            self.inptpre_value.clone(),
            self.outsubdir_num,
            self.outdir_value.clone(),
        );
        if code == 0 {
            self.newinptdir_value = newin;
            self.newoutdir_value = newout;
        } else {
            self.msg_value = msg;
            self.mess_color = Tone::Red;
        }
    }

    /// The input indent field was edited.
    pub fn on_subinpt(&mut self, value: String)
        ensures
            final(self)@ == subinpt_spec(old(self)@, value@),
    {
        self.test_press = false;
        let text = chars_of(value.as_str());
        self.inptsubdir_value = value;
        if text.len() == 0 {
            self.inptsubdir_num = 0;
            self.set_message("input subdir not integer", Tone::Red);
            return;
        }
        let isd: i32 = match parse_i32_chars(&text) {
            Some(x) => x,
            None => -99,
        };
        if isd == -99 {
            self.inptsubdir_num = 0;
            self.set_message("input subdir not an integer", Tone::Red);
        } else if isd < 0 {
            self.inptsubdir_num = 0;
            self.set_message("input subdir not positive integer", Tone::Red);
        } else if same_chars(&chars_of(self.inptpre_value.as_str()), &chars_of("--")) {
            self.inptsubdir_num = 0;
            self.set_message(
                "no input pre subdir value specified: number will be ignored",
                Tone::Red,
            );
        } else {
            self.inptsubdir_num = isd;
            self.set_message("input subdir is good integer", Tone::Green);
            self.refresh_dirs();
        }
    }

    /// The output indent field was edited.
    pub fn on_subout(&mut self, value: String)
        ensures
            final(self)@ == subout_spec(old(self)@, value@),
    {
        self.test_press = false;
        let text = chars_of(value.as_str());
        self.outsubdir_value = value;
        if text.len() == 0 {
            self.outsubdir_num = 0;
            self.set_message("output subdir not integer", Tone::Red);
            return;
        }
        let osd: i32 = match parse_i32_chars(&text) {
            Some(x) => x,
            None => -99,
        };
        if osd == -99 {
            self.outsubdir_num = 0;
            self.set_message("output subdir not an integer", Tone::Red);
        } else if osd < 0 {
            self.outsubdir_num = 0;
            self.set_message("output subdir not positive integer", Tone::Red);
        } else {
            self.outsubdir_num = osd;
            self.set_message("ouput subdir is good integer", Tone::Green);
            self.refresh_dirs();
        }
    }

    /// The "From" field was edited.
    pub fn on_from_changed(&mut self, value: String)
        ensures
            final(self)@ == (PanelView { test_press: false, from: value@, ..old(self)@ }),
    {
        self.test_press = false;
        self.from_value = value;
    }

    /// The "To" field was edited.
    pub fn on_to_changed(&mut self, value: String)
        ensures
            final(self)@ == (PanelView { test_press: false, to: value@, ..old(self)@ }),
    {
        self.test_press = false;
        self.to_value = value;
    }
}

/// Whether slicing the directory field of the first row panics.
pub fn first_row_panics_exec(lines: &Vec<String>) -> (b: bool)
    ensures
        b == first_row_panics(string_views(lines@)),
{
    if lines.len() == 0 {
        return false;
    }
    let bar = chars_of("|");
    proof {
        reveal_strlit("|");
    }
    let fields = split_on(&chars_of(lines[0].as_str()), &bar);
    assert(string_views(lines@)[0] == lines@[0]@);
    if fields.len() < 7 {
        return false;
    }
    assert(crate::text::views(fields@)[3] == fields@[3]@);
    let f = &fields[3];
    let ok = f.len() > 0 && (f[0] as u32) < 128 && (f[0] != '"' || (f.len() >= 2 && (f[f.len()
        - 1] as u32) < 128));
    !ok
}

/// Whether working out the next range overflows.
pub fn next_range_overflows_exec(from: &String, to: &String, rows: u64) -> (b: bool)
    ensures
        b == next_range_overflows(from@, to@, rows),
{
    let fc = chars_of(from.as_str());
    let tc = chars_of(to.as_str());
    if fc.len() == 0 || tc.len() == 0 {
        return false;
    }
    let f: i64 = match parse_i64_chars(&fc) {
        Some(x) => x,
        None => -99,
    };
    let t: i64 = match parse_i64_chars(&tc) {
        Some(x) => x,
        None => -99,
    };
    if f <= 0 || t <= 0 || t < f {
        return false;
    }
    if t == 0x7fff_ffff_ffff_ffff {
        return true;
    }
    (t + 1 <= rows as i64) && (t as i128) + 1 + (t as i128) > 0x7fff_ffff_ffff_ffff
}

impl Panel {
    /// A new list file was chosen (see `hd_chosen_spec`), for lists whose
    /// first row can be sliced.
    pub fn on_hd_chosen(&mut self, choice: Choice, exists: bool, lines: &Vec<String>, read_failed: bool)
        requires
            !(choice.code == 0 && exists && first_row_panics(string_views(lines@))),
        ensures
            final(self)@ == hd_chosen_spec(
                old(self)@,
                choice.code,
                choice.message@,
                choice.path@,
                exists,
                string_views(lines@),
                read_failed,
            ),
    {
        self.test_press = false;
        self.msg_value = choice.message;
        if choice.code != 0 {
            self.mess_color = Tone::Red;
            return;
        }
        if !exists {
            self.mess_color = Tone::Red;
            let mut m = chars_of("HD list file does not exist: ");
            append_chars(&mut m, &chars_of(choice.path.as_str()));
            self.msg_value = string_of(&m);
            return;
        }
        self.mess_color = Tone::Green;
        self.hd_value = choice.path;
        self.rows_num = 0;
        if lines.len() > 0 {
            let bar = chars_of("|");
            proof {
                reveal_strlit("|");
            }
            let fields = split_on(&chars_of(lines[0].as_str()), &bar);
            assert(string_views(lines@)[0] == lines@[0]@);
            if fields.len() < 7 {
                let mut m = chars_of("Hd list row is invalid length: ");
                append_chars(&mut m, &decimal_u64(fields.len() as u64));
                self.msg_value = string_of(&m);
                self.mess_color = Tone::Green;
            } else {
                assert(crate::text::views(fields@)[3] == fields@[3]@);
                let f = &fields[3];
                let dir = if f[0] == '"' {
                    subrange_of(f, 1, f.len() - 1)
                } else {
                    f.clone()
                };
                self.firstentrydir_value = string_of(&dir);
                let (code, msg, newin, newout) = evaldirs(
                    string_of(&dir),
                    self.inptsubdir_num,
                    self.inptpre_value.clone(),
                    self.outsubdir_num,
                    self.outdir_value.clone(),
                );
                if code == 0 {
                    self.newinptdir_value = newin;
                    self.newoutdir_value = newout;
                } else {
                    self.msg_value = msg;
                    self.mess_color = Tone::Red;
                    return;
                }
            }
        }
        if read_failed {
            self.set_message("error reading Hd list ", Tone::Red);
        } else {
            self.rows_num = lines.len() as u64;
            self.set_message("got HD list file and retrieved its number of rows", Tone::Green);
        }
    }

    /// A new output directory was chosen (see `out_chosen_spec`).
    pub fn on_out_chosen(&mut self, choice: Choice)
        ensures
            final(self)@ == out_chosen_spec(old(self)@, choice.code, choice.message@, choice.path@),
    {
        self.test_press = false;
        if choice.code == 0 {
            self.set_message("got out Directory", Tone::Green);
            self.outdir_value = choice.path;
            self.refresh_dirs();
        } else {
            self.mess_color = Tone::Red;
            self.msg_value = choice.message;
        }
    }

    /// A new input prefix directory was chosen (see `insub_chosen_spec`).
    pub fn on_insub_chosen(&mut self, choice: Choice)
        ensures
            final(self)@ == insub_chosen_spec(old(self)@, choice.code, choice.message@, choice.path@),
    {
        self.test_press = false;
        if choice.code == 0 {
            let isd: i32 = match parse_i32_chars(&chars_of(self.inptsubdir_value.as_str())) {
                Some(x) => x,
                None => -99,
            };
            if isd > 0 {
                self.inptsubdir_num = isd;
            }
            self.set_message("got out Directory", Tone::Green);
            self.inptpre_value = choice.path;
            self.refresh_dirs();
        } else {
            self.mess_color = Tone::Red;
            self.msg_value = choice.message;
        }
    }

    /// The list is checked; `existing` holds the paths that exist.
    pub fn on_test(&mut self, existing: &Vec<String>)
        ensures
            final(self)@ == checked_spec(old(self)@, testpress_spec(old(self)@.list, listed(existing@))),
    {
        let (code, msg) = testpress(self.liststr_value.clone(), existing);
        self.msg_value = msg;
        if code == 0 {
            self.test_press = true;
            self.mess_color = Tone::Green;
        } else {
            self.test_press = false;
            self.mess_color = Tone::Red;
        }
    }

    /// The copy button was pressed; returns whether copying starts.
    pub fn on_copy(&mut self, existing: &Vec<String>) -> (go: bool)
        ensures
            (final(self)@, go) == copy_press_spec(old(self)@, listed(existing@)),
    {
        if self.test_press {
            let (code, msg) = testpress(self.liststr_value.clone(), existing);
            self.test_press = false;
            if code == 0 {
                self.set_message("Copying just started", Tone::Blue);
                true
            } else {
                self.msg_value = msg;
                self.mess_color = Tone::Red;
                false
            }
        } else {
            self.set_message("Test button was not pressed", Tone::Red);
            false
        }
    }

    /// A copy run ended with `outcome` (`None` when the run itself failed).
    pub fn on_copy_done(&mut self, outcome: Option<(u32, String)>)
        ensures
            final(self)@ == copy_done_spec(
                old(self)@,
                match outcome {
                    Some((c, m)) => Some((c, m@)),
                    None => None,
                },
            ),
    {
        match outcome {
            Some((code, message)) => {
                self.msg_value = message;
                self.mess_color = if code == 0 {
                    Tone::Green
                } else {
                    Tone::Red
                };
            },
            None => {
                self.set_message("error in copyx copyit routine", Tone::Red);
            },
        }
    }

    /// Makes the list for the current settings and shows the result (see
    /// `listed_spec`), for lists whose rows can be sliced.
    pub fn apply_list(&mut self, disk: &HdSource)
        requires
            list_result(old(self)@, *disk) is Some,
        ensures
            final(self)@ == listed_spec(old(self)@, list_result(old(self)@, *disk)->0),
    {
        let r = try_makelist(
            self.hd_value.clone(),
            self.from_value.clone(),
            self.to_value.clone(),
            self.inptsubdir_num,
            self.inptpre_value.clone(),
            self.outsubdir_num,
            self.outdir_value.clone(),
            self.rows_num,
            disk,
        );
        match r {
            Some((code, msg, list)) => {
                if code == 0 {
                    self.liststr_value = list;
                    self.mess_color = Tone::Green;
                } else {
                    self.mess_color = Tone::Red;
                }
                self.msg_value = msg;
            },
            None => {},
        }
    }

    /// The list button was pressed: the check mark is cleared and the list
    /// made again.
    pub fn on_list(&mut self, disk: &HdSource)
        requires
            list_result(old(self)@, *disk) is Some,
        ensures
            final(self)@ == listed_spec(
                PanelView { test_press: false, ..old(self)@ },
                list_result(old(self)@, *disk)->0,
            ),
    {
        self.test_press = false;
        self.apply_list(disk);
    }

    /// The next button was pressed: the range moves on (see `advance_spec`);
    /// returns whether a list is to be made for it.
    pub fn advance_range(&mut self) -> (go: bool)
        requires
            !next_range_overflows(old(self)@.from, old(self)@.to, old(self)@.rows_num),
        ensures
            (final(self)@, go) == advance_spec(old(self)@),
    {
        self.test_press = false;
        let fc = chars_of(self.from_value.as_str());
        let tc = chars_of(self.to_value.as_str());
        let f: i64 = match parse_i64_chars(&fc) {
            Some(x) => x,
            None => -99,
        };
        let t: i64 = match parse_i64_chars(&tc) {
            Some(x) => x,
            None => -99,
        };
        if fc.len() == 0 {
            self.set_message("From has no value", Tone::Red);
            return false;
        }
        if f <= 0 {
            if f == -99 {
                self.set_message("From is not an integer", Tone::Red);
            } else {
                self.set_message("From is not positive integer", Tone::Red);
            }
            return false;
        }
        if tc.len() == 0 {
            self.set_message("To has no value", Tone::Red);
            return false;
        }
        if t <= 0 {
            if t == -99 {
                self.set_message("To is not an integer", Tone::Red);
            } else {
                self.set_message("From is not positive integer", Tone::Red);
            }
            return false;
        }
        if t < f {
            self.set_message("From Greater than To", Tone::Red);
            return false;
        }
        let newfrom = t + 1;
        if newfrom > self.rows_num as i64 {
            self.set_message("No more rows to list", Tone::Red);
            return false;
        }
        let newto = newfrom + t - f;
        self.to_value = string_of(&decimal_i64(newto));
        self.from_value = string_of(&decimal_i64(newfrom));
        true
    }
}

/// The next button moves to the rows right after the current range, as many
/// as before, and the list made then reads exactly that range back from the
/// fields it wrote.
pub proof fn lemma_next_range_is_listed(v: PanelView)
    requires
        !next_range_overflows(v.from, v.to, v.rows_num),
        advance_spec(v).1,
    ensures
        ({
            let f = bound_value(v.from) as int;
            let t = bound_value(v.to) as int;
            let w = advance_spec(v).0;
            &&& range_check(w.from, w.to, v.rows_num) == Ok::<(i64, i64), (u32, Seq<char>)>(
                ((t + 1) as i64, (t + 1 + t - f) as i64),
            )
            &&& (t + 1 + t - f) - (t + 1) == t - f
        }),
{
    let f = bound_value(v.from) as int;
    let t = bound_value(v.to) as int;
    let w = advance_spec(v).0;
    lemma_parse_decimal((t + 1) as nat);
    lemma_parse_decimal((t + 1 + t - f) as nat);
    lemma_decimal_nonempty((t + 1) as nat);
    lemma_decimal_nonempty((t + 1 + t - f) as nat);
}

proof fn lemma_decimal_nonempty(n: nat)
    ensures
        decimal(n).len() > 0,
    decreases n,
{
    if n >= 10 {
        lemma_decimal_nonempty(n / 10);
    }
}

/// Copying starts only when the list had passed the check and passes it
/// again against the disk as it is then; either way the check mark is gone
/// afterwards.
pub proof fn lemma_copy_only_after_check(v: PanelView, on_disk: spec_fn(Seq<char>) -> bool)
    ensures
        copy_press_spec(v, on_disk).1 ==> v.test_press && testpress_spec(v.list, on_disk).0 == 0,
        !copy_press_spec(v, on_disk).0.test_press,
{
}

/// The check mark: it is set only by a check that passes, and every edit of
/// a field, every choice of a file or directory, the copy button, the list
/// button and the next button (with the list it makes) clear it; the end of
/// a copy run and the making of a list leave it as it was.
pub proof fn lemma_check_mark(
    v: PanelView,
    value: Seq<char>,
    code: u32,
    message: Seq<char>,
    path: Seq<char>,
    exists: bool,
    lines: Seq<Seq<char>>,
    read_failed: bool,
    on_disk: spec_fn(Seq<char>) -> bool,
    verdict: (u32, Seq<char>),
    outcome: Option<(u32, Seq<char>)>,
    r: (u32, Seq<char>, Seq<char>),
)
    ensures
        !subinpt_spec(v, value).test_press,
        !subout_spec(v, value).test_press,
        !(PanelView { test_press: false, from: value, ..v }).test_press,
        !(PanelView { test_press: false, to: value, ..v }).test_press,
        !out_chosen_spec(v, code, message, path).test_press,
        !insub_chosen_spec(v, code, message, path).test_press,
        !hd_chosen_spec(v, code, message, path, exists, lines, read_failed).test_press,
        checked_spec(v, verdict).test_press == (verdict.0 == 0),
        !copy_press_spec(v, on_disk).0.test_press,
        copy_done_spec(v, outcome).test_press == v.test_press,
        listed_spec(v, r).test_press == v.test_press,
        !listed_spec(PanelView { test_press: false, ..v }, r).test_press,
        !advance_spec(v).0.test_press,
        !listed_spec(advance_spec(v).0, r).test_press,
{
}

/// What the scroll-height field reads as: a height above the least one, not
/// a number, or a number too small.
#[derive(Clone, Copy, PartialEq, Eq, Structural, Debug)]
pub enum ScrollReading {
    Good,
    NotNumber,
    TooSmall,
}

/// The state after the scroll-height field was edited.
pub open spec fn scroll_spec(v: PanelView, r: ScrollReading) -> PanelView {
    let v1 = PanelView { test_press: false, ..v };
    match r {
        ScrollReading::Good => PanelView { msg: "Good scroll height value"@, tone: Tone::Green, ..v1 },
        ScrollReading::NotNumber => PanelView {
            msg: "Scroll height value is not a floating point number"@,
            tone: Tone::Red,
            ..v1
        },
        ScrollReading::TooSmall => PanelView {
            msg: "Scroll height value is less than 170.0"@,
            tone: Tone::Red,
            ..v1
        },
    }
}

/// Everything that can happen to the window, with what it brings: the
/// values typed, what the dialogs and the disk gave, and, for the check and
/// the copy button, which paths exist.
pub enum PanelEvent {
    Subinpt(Seq<char>),
    Subout(Seq<char>),
    FromEdit(Seq<char>),
    ToEdit(Seq<char>),
    OutChosen(u32, Seq<char>, Seq<char>),
    InsubChosen(u32, Seq<char>, Seq<char>),
    HdChosen(u32, Seq<char>, Seq<char>, bool, Seq<Seq<char>>, bool),
    Test(spec_fn(Seq<char>) -> bool),
    Copy(spec_fn(Seq<char>) -> bool),
    CopyDone(Option<(u32, Seq<char>)>),
    List(HdSource),
    Next(HdSource),
    Scroll(ScrollReading),
    ProgressStart,
    ProgressNote(Seq<char>),
    ProgressFailed,
}

/// The state after an event.
#[verifier::opaque]
pub open spec fn apply_event(v: PanelView, e: PanelEvent) -> PanelView {
    match e {
        PanelEvent::Subinpt(t) => subinpt_spec(v, t),
        PanelEvent::Subout(t) => subout_spec(v, t),
        PanelEvent::FromEdit(t) => PanelView { test_press: false, from: t, ..v },
        PanelEvent::ToEdit(t) => PanelView { test_press: false, to: t, ..v },
        PanelEvent::OutChosen(c, m, p) => out_chosen_spec(v, c, m, p),
        PanelEvent::InsubChosen(c, m, p) => insub_chosen_spec(v, c, m, p),
        PanelEvent::HdChosen(c, m, p, x, lines, rf) => hd_chosen_spec(v, c, m, p, x, lines, rf),
        PanelEvent::Test(f) => checked_spec(v, testpress_spec(v.list, f)),
        PanelEvent::Copy(f) => copy_press_spec(v, f).0,
        PanelEvent::CopyDone(o) => copy_done_spec(v, o),
        PanelEvent::List(disk) => {
            let v1 = PanelView { test_press: false, ..v };
            listed_spec(v1, list_result(v1, disk)->0)
        },
        PanelEvent::Next(disk) => {
            let (w, go) = advance_spec(v);
            if go {
                listed_spec(w, list_result(w, disk)->0)
            } else {
                w
            }
        },
        PanelEvent::Scroll(r) => scroll_spec(v, r),
        PanelEvent::ProgressStart => v,
        PanelEvent::ProgressNote(note) => PanelView { msg: note, tone: Tone::Blue, ..v },
        PanelEvent::ProgressFailed => PanelView {
            msg: "error in Progstart::pstart routine"@,
            tone: Tone::Red,
            ..v
        },
    }
}

/// Events that leave the check mark alone: the end of a copy run and the
/// progress bar's events.
pub open spec fn passive(e: PanelEvent) -> bool {
    match e {
        PanelEvent::CopyDone(_) | PanelEvent::ProgressStart | PanelEvent::ProgressNote(_)
        | PanelEvent::ProgressFailed => true,
        _ => false,
    }
}

/// The state after a sequence of events.
pub open spec fn run_events(v: PanelView, es: Seq<PanelEvent>) -> PanelView
    decreases es.len(),
{
    if es.len() == 0 {
        v
    } else {
        apply_event(run_events(v, es.drop_last()), es.last())
    }
}

/// Event `k` was a check that the list passed, and only passive events came
/// after it.
pub open spec fn approved_at(v: PanelView, es: Seq<PanelEvent>, k: int) -> bool {
    &&& 0 <= k < es.len()
    &&& match es[k] {
        PanelEvent::Test(f) => testpress_spec(run_events(v, es.take(k)).list, f).0 == 0,
        _ => false,
    }
    &&& forall|k2: int| k < k2 < es.len() ==> passive(#[trigger] es[k2])
}

/// The check mark for every event: a check sets it exactly when the list
/// passes; the end of a copy run and the progress bar's events leave it as
/// it was; every other event clears it. Checks and passive events leave the
/// list as it was.
pub proof fn lemma_check_mark_every_event(v: PanelView, e: PanelEvent)
    ensures
        apply_event(v, e).test_press == match e {
            PanelEvent::Test(f) => testpress_spec(v.list, f).0 == 0,
            _ => passive(e) && v.test_press,
        },
        (passive(e) || e is Test) ==> apply_event(v, e).list == v.list,
{
    reveal(apply_event);
}

/// From a state without the check mark (as the window opens), the mark is
/// set after a sequence of events exactly when some event was a check that
/// the list passed and only passive events came after it; the list is then
/// the one that passed.
pub proof fn lemma_check_mark_history(v: PanelView, es: Seq<PanelEvent>)
    requires
        !v.test_press,
    ensures
        run_events(v, es).test_press <==> exists|k: int| approved_at(v, es, k),
        forall|k: int| approved_at(v, es, k) ==> run_events(v, es).list == run_events(
            v,
            es.take(k),
        ).list,
    decreases es.len(),
{
    if es.len() > 0 {
        let pre = es.drop_last();
        let e = es.last();
        let n = es.len() - 1;
        lemma_check_mark_history(v, pre);
        lemma_check_mark_every_event(run_events(v, pre), e);
        assert(es.take(n) =~= pre);
        assert forall|k: int| 0 <= k < n implies es.take(k) =~= pre.take(k) && #[trigger] es[k]
            == pre[k] by {}
        if run_events(v, es).test_press {
            if e is Test {
                assert(approved_at(v, es, n));
            } else {
                let k = choose|k: int| approved_at(v, pre, k);
                assert(es.take(k) =~= pre.take(k));
                assert(approved_at(v, es, k));
            }
        }
        assert forall|k: int| approved_at(v, es, k) implies run_events(v, es).test_press
            && run_events(v, es).list == run_events(v, es.take(k)).list by {
            assert(es.take(k) =~= pre.take(k) || k == n);
            if k < n {
                assert(passive(es[n]));
                assert(es.take(k) =~= pre.take(k));
                assert forall|k2: int| k < k2 < pre.len() implies passive(#[trigger] pre[k2]) by {
                    assert(es[k2] == pre[k2]);
                }
                assert(approved_at(v, pre, k));
            }
        }
    }
}

/// From a state without the check mark, the copy button starts copying
/// exactly when the last event other than passive ones was a check the list
/// passed, and the list passes the check again on the disk as it is then.
pub proof fn lemma_copy_press_after_events(v: PanelView, es: Seq<PanelEvent>, on_disk: spec_fn(Seq<char>) -> bool)
    requires
        !v.test_press,
    ensures
        copy_press_spec(run_events(v, es), on_disk).1 <==> (exists|k: int| approved_at(v, es, k))
            && testpress_spec(run_events(v, es).list, on_disk).0 == 0,
        !copy_press_spec(run_events(v, es), on_disk).0.test_press,
{
    lemma_check_mark_history(v, es);
}

impl Panel {
    /// The scroll-height field was edited and read as `reading`.
    pub fn on_scroll_edit(&mut self, reading: ScrollReading)
        ensures
            final(self)@ == scroll_spec(old(self)@, reading),
    {
        self.test_press = false;
        match reading {
            ScrollReading::Good => self.set_message("Good scroll height value", Tone::Green),
            ScrollReading::NotNumber => self.set_message(
                "Scroll height value is not a floating point number",
                Tone::Red,
            ),
            ScrollReading::TooSmall => self.set_message(
                "Scroll height value is less than 170.0",
                Tone::Red,
            ),
        }
    }

    /// A progress report is shown.
    pub fn on_progress_note(&mut self, note: String)
        ensures
            final(self)@ == (PanelView { msg: note@, tone: Tone::Blue, ..old(self)@ }),
    {
        self.msg_value = note;
        self.mess_color = Tone::Blue;
    }

    /// The progress poll failed.
    pub fn on_progress_failed(&mut self)
        ensures
            final(self)@ == (PanelView {
                msg: "error in Progstart::pstart routine"@,
                tone: Tone::Red,
                ..old(self)@
            }),
    {
        self.set_message("error in Progstart::pstart routine", Tone::Red);
    }
}

/// The list button shows the list it made: when making the list for the
/// window's settings and disk gives code 0, the window's list becomes the
/// made list and the message the made message; with any other code the
/// window's list stays as it was and the message is the made message. The
/// next button, when it moves on, does the same for the new range.
pub proof fn lemma_list_made_is_shown(v: PanelView, disk: HdSource)
    requires
        list_result(v, disk) is Some,
    ensures
        ({
            let r = list_result(v, disk)->0;
            let w = listed_spec(v, r);
            &&& r.0 == 0 ==> w.list == r.2 && w.tone == Tone::Green
            &&& r.0 != 0 ==> w.list == v.list && w.tone == Tone::Red
            &&& w.msg == r.1
            &&& w.test_press == v.test_press
            &&& w.from == v.from && w.to == v.to && w.hd == v.hd && w.rows_num == v.rows_num
        }),
        ({
            let v1 = PanelView { test_press: false, ..v };
            let r = list_result(v1, disk)->0;
            r.0 == 0 ==> apply_event(v, PanelEvent::List(disk)).list == r.2
        }),
        ({
            let (w, go) = advance_spec(v);
            let r = list_result(w, disk)->0;
            go && r.0 == 0 ==> apply_event(v, PanelEvent::Next(disk)).list == r.2
        }),
{
    reveal(apply_event);
}

/// The output indent field takes any non-negative whole number typed in,
/// whatever the output directory; the input indent field takes it once an
/// input prefix is chosen. Both keep the text typed.
pub proof fn lemma_indent_fields_take_numbers(v: PanelView, t: Seq<char>, n: i32)
    requires
        parse_i32(t) == Some(n),
        n >= 0,
    ensures
        subout_spec(v, t).outsubdir_num == n,
        subout_spec(v, t).outsubdir_text == t,
        subinpt_spec(v, t).inptsubdir_text == t,
        v.inptpre != unset() ==> subinpt_spec(v, t).inptsubdir_num == n,
        v.inptpre == unset() ==> subinpt_spec(v, t).inptsubdir_num == 0,
        subout_spec(v, t).outdir == v.outdir && subout_spec(v, t).inptsubdir_num
            == v.inptsubdir_num,
{
    assert(t.len() > 0);
}

/// Choosing a list file whose first row has at least seven fields takes that
/// row's directory (without quotes) as the first entry directory, and, when
/// it can be re-rooted, its new input and output directories are the ones
/// `evaldirs` gives with the window's prefixes and indents; when the whole
/// file was read, the row count is its number of lines.
pub proof fn lemma_list_file_first_row(
    v: PanelView,
    code: u32,
    message: Seq<char>,
    path: Seq<char>,
    lines: Seq<Seq<char>>,
    read_failed: bool,
)
    requires
        code == 0,
        lines.len() > 0,
        split_seq(lines[0], "|"@).len() >= 7,
    ensures
        ({
            let dir = unquote(split_seq(lines[0], "|"@)[3]);
            let e = evaldirs_spec(dir, v.inptsubdir_num, v.inptpre, v.outsubdir_num, v.outdir);
            let w = hd_chosen_spec(v, code, message, path, true, lines, read_failed);
            &&& w.firstentrydir == dir
            &&& w.hd == path
            &&& e.0 == 0 ==> w.newinptdir == e.2 && w.newoutdir == e.3
            &&& e.0 == 0 ==> w.newoutdir == output_side(dir, v.outsubdir_num, v.outdir).dir
            &&& e.0 == 0 && !read_failed ==> w.rows_num == lines.len() as u64
            &&& e.0 != 0 ==> w.rows_num == 0 && w.msg == e.1 && w.tone == Tone::Red
        }),
{
}

/// For a good range (`0 < from <= to`), the next button moves on exactly when
/// the row after the range is a row of the list file, that is when
/// `to + 1` is at most the row count; it then lists the rows right after the
/// range, as many as before.
pub proof fn lemma_next_moves_on_iff_rows_left(v: PanelView)
    requires
        v.from.len() > 0,
        v.to.len() > 0,
        0 < bound_value(v.from) <= bound_value(v.to),
        !next_range_overflows(v.from, v.to, v.rows_num),
    ensures
        advance_spec(v).1 <==> bound_value(v.to) + 1 <= (v.rows_num as i64),
        advance_spec(v).1 ==> range_check(advance_spec(v).0.from, advance_spec(v).0.to, v.rows_num)
            == Ok::<(i64, i64), (u32, Seq<char>)>(
            (
                (bound_value(v.to) + 1) as i64,
                (bound_value(v.to) + 1 + bound_value(v.to) - bound_value(v.from)) as i64,
            ),
        ),
        !advance_spec(v).1 ==> advance_spec(v).0.from == v.from && advance_spec(v).0.to == v.to
            && advance_spec(v).0.msg == "No more rows to list"@,
{
    if advance_spec(v).1 {
        lemma_next_range_is_listed(v);
    }
}

} // verus!
