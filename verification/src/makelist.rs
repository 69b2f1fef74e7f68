//! Building the copy list from rows of the hard-disk list file.
use vstd::prelude::*;
use crate::evaldirs::{evaldirs, evaldirs_spec};
use crate::testpress::string_views;
use crate::text::{
    append_chars, chars_of, decimal, decimal_u64, parse_i64, parse_i64_chars, split_on, split_seq,
    string_of, subrange_of, views,
};

verus! {

/// What was found on disk before the list is built: whether the input prefix
/// directory, the output directory and the list file exist, the list file's
/// lines as read (each with its line ending), and whether reading stopped on
/// an error after those lines.
pub struct HdSource {
    pub inptpre_exists: bool,
    pub outdir_exists: bool,
    pub hd_exists: bool,
    pub lines: Vec<String>,
    pub read_failed: bool,
}

/// The number a range bound writes, or -99 when it writes none
/// (`parse().unwrap_or(-99)`).
pub open spec fn bound_value(s: Seq<char>) -> i64 {
    match parse_i64(s) {
        Some(v) => v,
        None => -99i64,
    }
}

/// The rows to list, `from` to `to`, or the code and message of what is
/// wrong with them.
pub open spec fn range_check(from: Seq<char>, to: Seq<char>, num_rows: u64) -> Result<
    (i64, i64),
    (u32, Seq<char>),
> {
    if from.len() == 0 {
        Err((1, "********* List: From has no value **********"@))
    } else if bound_value(from) == -99 {
        Err((2, "********* List: From is not an integer **********"@))
    } else if bound_value(from) <= 0 {
        Err((3, "********* List: From not positive integer **********"@))
    } else if to.len() == 0 {
        Err((4, "********* List: To has no value **********"@))
    } else if bound_value(to) == -99 {
        Err((5, "********* List: To is not an integer **********"@))
    } else if bound_value(to) <= 0 {
        Err((6, "********* List: To not positive integer **********"@))
    } else if bound_value(to) < bound_value(from) {
        Err((7, "********* List: From Greater than To **********"@))
    } else if bound_value(from) > (num_rows as i64) {
        Err((8, "List: From Greater than number of rows"@))
    } else {
        Ok((bound_value(from), bound_value(to)))
    }
}

/// `c` is an ASCII character (one byte in UTF-8).
pub open spec fn is_ascii_char(c: char) -> bool {
    (c as u32) < 128
}

/// A field can be freed of its quotes by byte slicing without a panic: its
/// first character is one byte and, when that is a quote, it has a last
/// character of one byte after it.
pub open spec fn unquote_ok(f: Seq<char>) -> bool {
    f.len() > 0 && is_ascii_char(f[0]) && (f[0] == '"' ==> f.len() >= 2 && is_ascii_char(f.last()))
}

/// A field without its first and last character when it starts with a quote.
pub open spec fn unquote(f: Seq<char>) -> Seq<char> {
    if f[0] == '"' {
        f.subrange(1, f.len() - 1)
    } else {
        f
    }
}

/// What stays the same from row to row.
pub struct RowParams {
    pub from: int,
    pub to: int,
    pub inptsubdir: i32,
    pub inptpre: Seq<char>,
    pub outsubdir: i32,
    pub outdir: Seq<char>,
    pub read_failed: bool,
}

/// What one row of the list file does to the list.
pub enum RowStep {
    /// The row is outside the range or has too few fields to be an entry.
    Skip,
    /// The row's text for the list.
    Append(Seq<char>),
    /// The row ends the list with an error; the text is what was added first.
    Fail(u32, Seq<char>, Seq<char>),
    /// Slicing a field of the row panics.
    Panics,
}

/// The four lines (each followed by `"\n "`) and blank line that a row
/// adds to the list.
pub open spec fn row_text(linenum: nat, name: Seq<char>, dir: Seq<char>, newin: Seq<char>, newout: Seq<char>) -> Seq<char> {
    decimal(linenum) + " -- "@ + name + "\n "@ + dir + "\n "@ + newin + "\n "@ + newout + "\n "@ + "\n "@
}

/// What row `linenum` (counted from 1), whose text is `line`, does.
pub open spec fn row_step(line: Seq<char>, linenum: nat, p: RowParams) -> RowStep {
    if !(p.from <= linenum <= p.to) {
        RowStep::Skip
    } else {
        let fields = split_seq(line, "|"@);
        if fields.len() <= 2 {
            RowStep::Skip
        } else if fields.len() < 7 {
            RowStep::Fail(
                12,
                "Hd list row # "@ + decimal(linenum) + " is invalid length: "@ + decimal(fields.len()),
                Seq::empty(),
            )
        } else if !unquote_ok(fields[0]) || !unquote_ok(fields[3]) {
            RowStep::Panics
        } else {
            let name = unquote(fields[0]);
            let dir = unquote(fields[3]);
            let e = evaldirs_spec(dir, p.inptsubdir, p.inptpre, p.outsubdir, p.outdir);
            if e.0 != 0 {
                RowStep::Fail(
                    13,
                    "Hd list row # "@ + decimal(linenum) + " is invalid because: "@ + e.1,
                    decimal(linenum) + " -- "@ + name + "\n "@ + dir + "\n "@,
                )
            } else {
                RowStep::Append(row_text(linenum, name, dir, e.2, e.3))
            }
        }
    }
}

/// Goes through the rows from `k` on, adding to `list`; `None` when a row's
/// slicing panics.
pub open spec fn rows_walk(lines: Seq<Seq<char>>, k: int, p: RowParams, list: Seq<char>) -> Option<
    (u32, Seq<char>, Seq<char>),
>
    decreases lines.len() - k,
{
    if k < 0 || k >= lines.len() {
        if p.read_failed {
            Some((14, "error reading Hd list "@, list))
        } else {
            Some((0, "List created"@, list))
        }
    } else {
        match row_step(lines[k], (k + 1) as nat, p) {
            RowStep::Skip => rows_walk(lines, k + 1, p, list),
            RowStep::Append(t) => rows_walk(lines, k + 1, p, list + t),
            RowStep::Fail(c, m, t) => Some((c, m, list + t)),
            RowStep::Panics => None,
        }
    }
}

/// Error code, message and list for the given settings and disk; `None`
/// where a row's field cannot be sliced (the list is then not made).
pub open spec fn makelist_spec(
    hd_value: Seq<char>,
    from_value: Seq<char>,
    to_value: Seq<char>,
    inptsubdir: i32,
    inptpre_value: Seq<char>,
    outsubdir: i32,
    outdir_value: Seq<char>,
    num_rows: u64,
    disk: HdSource,
) -> Option<(u32, Seq<char>, Seq<char>)> {
    match range_check(from_value, to_value, num_rows) {
        Err((c, m)) => Some((c, m, " "@)),
        Ok((f, t)) => if inptsubdir > 0 && !disk.inptpre_exists {
            Some((9, "input subdirectory "@ + inptpre_value + " does not exist"@, " "@))
        } else if !disk.outdir_exists {
            Some((10, "output directory "@ + outdir_value + " does not exist"@, " "@))
        } else if !disk.hd_exists {
            Some((11, "HD list file "@ + hd_value + " does not exist"@, " "@))
        } else {
            rows_walk(
                string_views(disk.lines@),
                0,
                RowParams {
                    from: f as int,
                    to: t as int,
                    inptsubdir,
                    inptpre: inptpre_value,
                    outsubdir,
                    outdir: outdir_value,
                    read_failed: disk.read_failed,
                },
                " "@,
            )
        },
    }
}

/// The number a range bound writes, or -99.
fn bound_value_exec(s: &Vec<char>) -> (r: i64)
    ensures
        r == bound_value(s@),
{
    match parse_i64_chars(s) {
        Some(v) => v,
        None => -99,
    }
}

/// Checks the range of rows asked for (see `range_check`).
pub fn check_range(from_value: &String, to_value: &String, num_rows: u64) -> (r: Result<
    (i64, i64),
    (u32, String),
>)
    ensures
        match r {
            Ok((f, t)) => range_check(from_value@, to_value@, num_rows) == Ok::<(i64, i64), (u32, Seq<char>)>((f, t)),
            Err((c, m)) => range_check(from_value@, to_value@, num_rows) == Err::<(i64, i64), (u32, Seq<char>)>((c, m@)),
        },
{
    let from = chars_of(from_value.as_str());
    let to = chars_of(to_value.as_str());
    if from.len() == 0 {
        return Err((1, string_of(&chars_of("********* List: From has no value **********"))));
    }
    let f = bound_value_exec(&from);
    if f == -99 {
        return Err((2, string_of(&chars_of("********* List: From is not an integer **********"))));
    }
    if f <= 0 {
        return Err((3, string_of(&chars_of("********* List: From not positive integer **********"))));
    }
    if to.len() == 0 {
        return Err((4, string_of(&chars_of("********* List: To has no value **********"))));
    }
    let t = bound_value_exec(&to);
    if t == -99 {
        return Err((5, string_of(&chars_of("********* List: To is not an integer **********"))));
    }
    if t <= 0 {
        return Err((6, string_of(&chars_of("********* List: To not positive integer **********"))));
    }
    if t < f {
        return Err((7, string_of(&chars_of("********* List: From Greater than To **********"))));
    }
    if f > num_rows as i64 {
        return Err((8, string_of(&chars_of("List: From Greater than number of rows"))));
    }
    Ok((f, t))
}

fn is_ascii_exec(c: char) -> (b: bool)
    ensures
        b == is_ascii_char(c),
{
    (c as u32) < 128
}

/// Frees a field of its quotes, or `None` where slicing it would panic.
fn unquote_exec(f: &Vec<char>) -> (r: Option<Vec<char>>)
    ensures
        match r {
            Some(u) => unquote_ok(f@) && u@ == unquote(f@),
            None => !unquote_ok(f@),
        },
{
    if f.len() == 0 || !is_ascii_exec(f[0]) {
        return None;
    }
    if f[0] == '"' {
        if f.len() < 2 || !is_ascii_exec(f[f.len() - 1]) {
            return None;
        }
        Some(subrange_of(f, 1, f.len() - 1))
    } else {
        Some(f.clone())
    }
}

/// Row step as computed: what to add, and how the row ends the walk.
enum RowDone {
    Skip,
    Append(Vec<char>),
    Fail(u32, Vec<char>, Vec<char>),
    Panics,
}

spec fn row_done_is(r: RowDone, s: RowStep) -> bool {
    match (r, s) {
        (RowDone::Skip, RowStep::Skip) => true,
        (RowDone::Append(t), RowStep::Append(u)) => t@ == u,
        (RowDone::Fail(c, m, t), RowStep::Fail(d, n, u)) => c == d && m@ == n && t@ == u,
        (RowDone::Panics, RowStep::Panics) => true,
        _ => false,
    }
}

/// What row `linenum` does (see `row_step`).
fn row_exec(
    line: &String,
    linenum: usize,
    from: i64,
    to: i64,
    inptsubdir: i32,
    inptpre_value: &String,
    outsubdir: i32,
    outdir_value: &String,
    Ghost(p): Ghost<RowParams>,
) -> (r: RowDone)
    requires
        p.from == from,
        p.to == to,
        p.inptsubdir == inptsubdir,
        p.inptpre == inptpre_value@,
        p.outsubdir == outsubdir,
        p.outdir == outdir_value@,
    ensures
        row_done_is(r, row_step(line@, linenum as nat, p)),
{
    let ln: u64 = linenum as u64;
    if ln > 0x7fff_ffff_ffff_ffff || !(from <= ln as i64 && ln as i64 <= to) {
        return RowDone::Skip;
    }
    let bar = chars_of("|");
    proof {
        reveal_strlit("|");
    }
    let fields = split_on(&chars_of(line.as_str()), &bar);
    if fields.len() <= 2 {
        return RowDone::Skip;
    }
    let mut head = chars_of("Hd list row # ");
    append_chars(&mut head, &decimal_u64(linenum as u64));
    if fields.len() < 7 {
        append_chars(&mut head, &chars_of(" is invalid length: "));
        append_chars(&mut head, &decimal_u64(fields.len() as u64));
        return RowDone::Fail(12, head, Vec::new());
    }
    assert(views(fields@)[0] == fields@[0]@);
    assert(views(fields@)[3] == fields@[3]@);
    let name = match unquote_exec(&fields[0]) {
        Some(n) => n,
        None => {
            return RowDone::Panics;
        },
    };
    let dir = match unquote_exec(&fields[3]) {
        Some(d) => d,
        None => {
            return RowDone::Panics;
        },
    };
    let mut text = decimal_u64(linenum as u64);
    append_chars(&mut text, &chars_of(" -- "));
    append_chars(&mut text, &name);
    append_chars(&mut text, &chars_of("\n "));
    append_chars(&mut text, &dir);
    append_chars(&mut text, &chars_of("\n "));
    let (code, msg, newin, newout) = evaldirs(
        string_of(&dir),
        inptsubdir,
        inptpre_value.clone(),
        outsubdir,
        outdir_value.clone(),
    );
    if code != 0 {
        append_chars(&mut head, &chars_of(" is invalid because: "));
        append_chars(&mut head, &chars_of(msg.as_str()));
        return RowDone::Fail(13, head, text);
    }
    append_chars(&mut text, &chars_of(newin.as_str()));
    append_chars(&mut text, &chars_of("\n "));
    append_chars(&mut text, &chars_of(newout.as_str()));
    append_chars(&mut text, &chars_of("\n "));
    append_chars(&mut text, &chars_of("\n "));
    RowDone::Append(text)
}

/// Builds the copy list, or `None` exactly where the list file has a row in
/// range whose file-name or directory field cannot be sliced by byte
/// position (a quote-stripping slice would panic there). Rows `from_value` to `to_value` of the list file are
/// turned into entries: the row number and file name, the entry directory,
/// and its new input and output directories (see `evaldirs`). Returns the
/// error code (0 when the list was made), a message, and the list.
pub fn try_makelist(
    hd_value: String,
    from_value: String,
    to_value: String,
    inptsubdir: i32,
    inptpre_value: String,
    outsubdir: i32,
    outdir_value: String,
    num_rows: u64,
    disk: &HdSource,
) -> (r: Option<(u32, String, String)>)
    ensures
        match r {
            Some((c, m, l)) => makelist_spec(
                hd_value@,
                from_value@,
                to_value@,
                inptsubdir,
                inptpre_value@,
                outsubdir,
                outdir_value@,
                num_rows,
                *disk,
            ) == Some((c, m@, l@)),
            None => makelist_spec(
                hd_value@,
                from_value@,
                to_value@,
                inptsubdir,
                inptpre_value@,
                outsubdir,
                outdir_value@,
                num_rows,
                *disk,
            ) is None,
        },
{
    let space = string_of(&chars_of(" "));
    let (f, t) = match check_range(&from_value, &to_value, num_rows) {
        Err((c, m)) => {
            return Some((c, m, space));
        },
        Ok(ft) => ft,
    };
    if inptsubdir > 0 && !disk.inptpre_exists {
        let mut m = chars_of("input subdirectory ");
        append_chars(&mut m, &chars_of(inptpre_value.as_str()));
        append_chars(&mut m, &chars_of(" does not exist"));
        return Some((9, string_of(&m), space));
    }
    if !disk.outdir_exists {
        let mut m = chars_of("output directory ");
        append_chars(&mut m, &chars_of(outdir_value.as_str()));
        append_chars(&mut m, &chars_of(" does not exist"));
        return Some((10, string_of(&m), space));
    }
    if !disk.hd_exists {
        let mut m = chars_of("HD list file ");
        append_chars(&mut m, &chars_of(hd_value.as_str()));
        append_chars(&mut m, &chars_of(" does not exist"));
        return Some((11, string_of(&m), space));
    }
    let ghost p = RowParams {
        from: f as int,
        to: t as int,
        inptsubdir,
        inptpre: inptpre_value@,
        outsubdir,
        outdir: outdir_value@,
        read_failed: disk.read_failed,
    };
    let ghost lines = string_views(disk.lines@);
    let mut list = chars_of(" ");
    let mut k: usize = 0;
    while k < disk.lines.len()
        invariant
            k <= disk.lines.len(),
            lines == string_views(disk.lines@),
            p.from == f,
            p.to == t,
            p.inptsubdir == inptsubdir,
            p.inptpre == inptpre_value@,
            p.outsubdir == outsubdir,
            p.outdir == outdir_value@,
            p.read_failed == disk.read_failed,
            makelist_spec(
                hd_value@,
                from_value@,
                to_value@,
                inptsubdir,
                inptpre_value@,
                outsubdir,
                outdir_value@,
                num_rows,
                *disk,
            ) == rows_walk(lines, k as int, p, list@),
        decreases disk.lines.len() - k,
    {
        assert(lines[k as int] == disk.lines@[k as int]@);
        match row_exec(
            &disk.lines[k],
            k + 1,
            f,
            t,
            inptsubdir,
            &inptpre_value,
            outsubdir,
            &outdir_value,
            Ghost(p),
        ) {
            RowDone::Skip => {},
            RowDone::Append(text) => {
                append_chars(&mut list, &text);
            },
            RowDone::Fail(c, m, text) => {
                append_chars(&mut list, &text);
                return Some((c, string_of(&m), string_of(&list)));
            },
            RowDone::Panics => {
                return None;
            },
        }
        k = k + 1;
    }
    if disk.read_failed {
        Some((14, string_of(&chars_of("error reading Hd list ")), string_of(&list)))
    } else {
        Some((0, string_of(&chars_of("List created")), string_of(&list)))
    }
}

/// Builds the copy list for rows `from_value` to `to_value` of the list file
/// (see `try_makelist`), for inputs on which no field slicing panics.
pub fn makelist(
    hd_value: String,
    from_value: String,
    to_value: String,
    inptsubdir: i32,
    inptpre_value: String,
    outsubdir: i32,
    outdir_value: String,
    num_rows: u64,
    disk: &HdSource,
) -> (r: (u32, String, String))
    requires
        makelist_spec(
            hd_value@,
            from_value@,
            to_value@,
            inptsubdir,
            inptpre_value@,
            outsubdir,
            outdir_value@,
            num_rows,
            *disk,
        ) is Some,
    ensures
        makelist_spec(
            hd_value@,
            from_value@,
            to_value@,
            inptsubdir,
            inptpre_value@,
            outsubdir,
            outdir_value@,
            num_rows,
            *disk,
        ) == Some((r.0, r.1@, r.2@)),
{
    match try_makelist(
        hd_value,
        from_value,
        to_value,
        inptsubdir,
        inptpre_value,
        outsubdir,
        outdir_value,
        num_rows,
        disk,
    ) {
        Some(r) => r,
        None => (0, String::new(), String::new()),
    }
}

/// Going through rows with some text already in the list adds to that text
/// what going through them from an empty list gives.
pub proof fn lemma_rows_walk_appends(lines: Seq<Seq<char>>, k: int, p: RowParams, list: Seq<char>)
    requires
        0 <= k <= lines.len(),
    ensures
        rows_walk(lines, k, p, list) == match rows_walk(lines, k, p, Seq::empty()) {
            Some((c, m, l)) => Some((c, m, list + l)),
            None => None,
        },
    decreases lines.len() - k,
{
    if k < lines.len() {
        match row_step(lines[k], (k + 1) as nat, p) {
            RowStep::Skip => {
                lemma_rows_walk_appends(lines, k + 1, p, list);
            },
            RowStep::Append(t) => {
                lemma_rows_walk_appends(lines, k + 1, p, list + t);
                lemma_rows_walk_appends(lines, k + 1, p, Seq::<char>::empty() + t);
                lemma_rows_walk_appends(lines, k + 1, p, Seq::<char>::empty());
                assert(Seq::<char>::empty() + t =~= t);
                match rows_walk(lines, k + 1, p, Seq::empty()) {
                    Some((c, m, l)) => {
                        assert(list + t + l =~= list + (t + l));
                    },
                    None => {},
                }
            },
            RowStep::Fail(c, m, t) => {
                assert(Seq::<char>::empty() + t =~= t);
            },
            RowStep::Panics => {},
        }
    } else {
        assert(list + Seq::<char>::empty() =~= list);
    }
}

/// Rows past the end of the range add nothing.
proof fn lemma_rows_past_range(lines: Seq<Seq<char>>, k: int, p: RowParams)
    requires
        0 <= k <= lines.len(),
        k + 1 > p.to,
    ensures
        rows_walk(lines, k, p, Seq::empty()) matches Some((_, _, l)) && l == Seq::<char>::empty(),
    decreases lines.len() - k,
{
    if k < lines.len() {
        lemma_rows_past_range(lines, k + 1, p);
    }
}

/// Splitting a range at row `t1`: the rows of the whole range add the rows
/// up to `t1`, then the rows after it.
proof fn lemma_rows_walk_split(
    lines: Seq<Seq<char>>,
    k: int,
    p2: RowParams,
    p1: RowParams,
    p3: RowParams,
)
    requires
        0 <= k <= lines.len(),
        p1 == (RowParams { to: p1.to, ..p2 }),
        p3 == (RowParams { from: p1.to + 1, ..p2 }),
        p2.from <= p1.to + 1,
        p1.to <= p2.to,
        rows_walk(lines, k, p2, Seq::empty()) matches Some((c, _, _)) && c == 0,
    ensures
        rows_walk(lines, k, p1, Seq::empty()) matches Some((c, _, _)) && c == 0,
        rows_walk(lines, k, p3, Seq::empty()) matches Some((c, _, _)) && c == 0,
        (rows_walk(lines, k, p2, Seq::empty())->0).2 == (rows_walk(lines, k, p1, Seq::empty())->0).2
            + (rows_walk(lines, k, p3, Seq::empty())->0).2,
    decreases lines.len() - k,
{
    let e = Seq::<char>::empty();
    if k < lines.len() {
        let r = (k + 1) as nat;
        if r <= p1.to {
            assert(row_step(lines[k], r, p1) == row_step(lines[k], r, p2));
            assert(row_step(lines[k], r, p3) == RowStep::Skip);
        } else {
            assert(row_step(lines[k], r, p3) == row_step(lines[k], r, p2));
            assert(row_step(lines[k], r, p1) == RowStep::Skip);
            lemma_rows_past_range(lines, k + 1, p1);
        }
        match row_step(lines[k], r, p2) {
            RowStep::Append(t) => {
                lemma_rows_walk_appends(lines, k + 1, p2, e + t);
                lemma_rows_walk_split(lines, k + 1, p2, p1, p3);
                let a = (rows_walk(lines, k + 1, p1, e)->0).2;
                let b = (rows_walk(lines, k + 1, p3, e)->0).2;
                if r <= p1.to {
                    lemma_rows_walk_appends(lines, k + 1, p1, e + t);
                    assert(e + t + (a + b) =~= e + t + a + b);
                } else {
                    lemma_rows_walk_appends(lines, k + 1, p3, e + t);
                    assert(a =~= e);
                    assert(e + t + (a + b) =~= a + (e + t + b));
                }
            },
            RowStep::Skip => {
                lemma_rows_walk_split(lines, k + 1, p2, p1, p3);
            },
            _ => {},
        }
    } else {
        assert(e + e =~= e);
    }
}

/// Lists made for the same settings and disk over rows `from..=t1` and
/// `from..=t2`, with `t1 <= t2` and both made (code 0): the longer one is the
/// shorter one followed by the entries of rows `t1 + 1..=t2`, that is, by the
/// list those rows alone give.
pub proof fn lemma_longer_range_extends_list(
    hd_value: Seq<char>,
    from_value: Seq<char>,
    to1: Seq<char>,
    to2: Seq<char>,
    inptsubdir: i32,
    inptpre_value: Seq<char>,
    outsubdir: i32,
    outdir_value: Seq<char>,
    num_rows: u64,
    disk: HdSource,
)
    requires
        makelist_spec(hd_value, from_value, to1, inptsubdir, inptpre_value, outsubdir, outdir_value, num_rows, disk) matches Some((c, _, _)) && c == 0,
        makelist_spec(hd_value, from_value, to2, inptsubdir, inptpre_value, outsubdir, outdir_value, num_rows, disk) matches Some((c, _, _)) && c == 0,
        bound_value(to1) <= bound_value(to2),
    ensures
        (makelist_spec(hd_value, from_value, to2, inptsubdir, inptpre_value, outsubdir, outdir_value, num_rows, disk)->0).2
            == (makelist_spec(hd_value, from_value, to1, inptsubdir, inptpre_value, outsubdir, outdir_value, num_rows, disk)->0).2
            + (rows_walk(
                string_views(disk.lines@),
                0,
                RowParams {
                    from: bound_value(to1) + 1,
                    to: bound_value(to2) as int,
                    inptsubdir,
                    inptpre: inptpre_value,
                    outsubdir,
                    outdir: outdir_value,
                    read_failed: disk.read_failed,
                },
                Seq::empty(),
            )->0).2,
{
    let lines = string_views(disk.lines@);
    let p2 = RowParams {
        from: bound_value(from_value) as int,
        to: bound_value(to2) as int,
        inptsubdir,
        inptpre: inptpre_value,
        outsubdir,
        outdir: outdir_value,
        read_failed: disk.read_failed,
    };
    let p1 = RowParams { to: bound_value(to1) as int, ..p2 };
    let p3 = RowParams { from: bound_value(to1) + 1, ..p2 };
    let e = Seq::<char>::empty();
    lemma_rows_walk_appends(lines, 0, p2, " "@);
    lemma_rows_walk_appends(lines, 0, p1, " "@);
    lemma_rows_walk_split(lines, 0, p2, p1, p3);
    let a = (rows_walk(lines, 0, p1, e)->0).2;
    let b = (rows_walk(lines, 0, p3, e)->0).2;
    assert(" "@ + (a + b) =~= " "@ + a + b);
}

/// Making the list goes on to the rows of the list file: the range is good,
/// the input prefix directory exists where an indent is asked for, and the
/// output directory and the list file exist.
pub open spec fn reads_rows(
    from_value: Seq<char>,
    to_value: Seq<char>,
    inptsubdir: i32,
    num_rows: u64,
    inptpre_exists: bool,
    outdir_exists: bool,
    hd_exists: bool,
) -> bool {
    &&& range_check(from_value, to_value, num_rows) is Ok
    &&& !(inptsubdir > 0 && !inptpre_exists)
    &&& outdir_exists
    &&& hd_exists
}

/// Whether making the list goes on to the rows of the list file (see
/// `reads_rows`); when it does not, the rows do not matter.
pub fn makelist_reads_rows(
    from_value: &String,
    to_value: &String,
    inptsubdir: i32,
    num_rows: u64,
    inptpre_exists: bool,
    outdir_exists: bool,
    hd_exists: bool,
) -> (b: bool)
    ensures
        b == reads_rows(
            from_value@,
            to_value@,
            inptsubdir,
            num_rows,
            inptpre_exists,
            outdir_exists,
            hd_exists,
        ),
{
    match check_range(from_value, to_value, num_rows) {
        Ok(_) => !(inptsubdir > 0 && !inptpre_exists) && outdir_exists && hd_exists,
        Err(_) => false,
    }
}

/// When making the list does not go on to the rows, the rows read, and
/// whether reading them failed, do not change its result.
pub proof fn lemma_rows_unread_unless_needed(
    hd_value: Seq<char>,
    from_value: Seq<char>,
    to_value: Seq<char>,
    inptsubdir: i32,
    inptpre_value: Seq<char>,
    outsubdir: i32,
    outdir_value: Seq<char>,
    num_rows: u64,
    disk: HdSource,
    other: HdSource,
)
    requires
        !reads_rows(from_value, to_value, inptsubdir, num_rows, disk.inptpre_exists, disk.outdir_exists, disk.hd_exists),
        other.inptpre_exists == disk.inptpre_exists,
        other.outdir_exists == disk.outdir_exists,
        other.hd_exists == disk.hd_exists,
    ensures
        makelist_spec(hd_value, from_value, to_value, inptsubdir, inptpre_value, outsubdir, outdir_value, num_rows, disk)
            == makelist_spec(hd_value, from_value, to_value, inptsubdir, inptpre_value, outsubdir, outdir_value, num_rows, other),
{
}

/// When the range of rows is wrong, nothing found on disk changes the result.
pub proof fn lemma_range_error_ignores_disk(
    hd_value: Seq<char>,
    from_value: Seq<char>,
    to_value: Seq<char>,
    inptsubdir: i32,
    inptpre_value: Seq<char>,
    outsubdir: i32,
    outdir_value: Seq<char>,
    num_rows: u64,
    disk: HdSource,
    other: HdSource,
)
    requires
        range_check(from_value, to_value, num_rows) is Err,
    ensures
        makelist_spec(hd_value, from_value, to_value, inptsubdir, inptpre_value, outsubdir, outdir_value, num_rows, disk)
            == makelist_spec(hd_value, from_value, to_value, inptsubdir, inptpre_value, outsubdir, outdir_value, num_rows, other),
{
}

} // verus!
