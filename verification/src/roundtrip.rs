//! Reading a made list back: the rows that the list builder writes are the
//! rows that the check and the copy run find, in the same order.
use vstd::prelude::*;
use crate::listing::{entry_mark, lines_of, scan_from, ScanStep};
use crate::evaldirs::evaldirs_spec;
use crate::makelist::{row_step, row_text, rows_walk, unquote, RowParams, RowStep};
use crate::text::{
    decimal, free_of, is_digit, is_white, lemma_decimal_digits, lemma_split_join, lemma_split_whole,
    occurs_at, split_seq, trim,
};

verus! {

/// One row as the list builder writes it: row number, file name, entry
/// directory, new input directory and new output directory.
pub struct ListedRow {
    pub linenum: nat,
    pub name: Seq<char>,
    pub dir: Seq<char>,
    pub newin: Seq<char>,
    pub newout: Seq<char>,
}

/// The text of rows `j` onwards, one after the other.
pub open spec fn rows_concat(rows: Seq<ListedRow>, j: int) -> Seq<char>
    decreases rows.len() - j,
{
    if j < 0 || j >= rows.len() {
        Seq::empty()
    } else {
        let r = rows[j];
        row_text(r.linenum, r.name, r.dir, r.newin, r.newout) + rows_concat(rows, j + 1)
    }
}

/// `s` holds no line break.
pub open spec fn one_line(s: Seq<char>) -> bool {
    forall|i: int| 0 <= i < s.len() ==> s[i] != '\n'
}

/// A row can be read back: none of its texts breaks a line, and the file
/// name does not hold `" -- "`.
pub open spec fn readable_row(r: ListedRow) -> bool {
    one_line(r.name) && one_line(r.dir) && one_line(r.newin) && one_line(r.newout) && free_of(
        r.name,
        entry_mark(),
    )
}

/// The lines of `" "` followed by rows `j` onwards: five per row, then one.
pub open spec fn row_lines(rows: Seq<ListedRow>, j: int) -> Seq<Seq<char>>
    decreases rows.len() - j,
{
    if j < 0 || j >= rows.len() {
        seq![" "@]
    } else {
        let r = rows[j];
        seq![
            " "@ + decimal(r.linenum) + entry_mark() + r.name,
            " "@ + r.dir,
            " "@ + r.newin,
            " "@ + r.newout,
            " "@,
        ] + row_lines(rows, j + 1)
    }
}

proof fn lemma_no_break_before(a: Seq<char>, b: Seq<char>)
    requires
        one_line(a),
        "\n"@.len() == 1,
        "\n"@[0] == '\n',
    ensures
        forall|k: int| k < a.len() ==> !occurs_at(a + "\n"@ + b, "\n"@, k),
{
    assert forall|k: int| k < a.len() implies !occurs_at(a + "\n"@ + b, "\n"@, k) by {
        if occurs_at(a + "\n"@ + b, "\n"@, k) {
            assert((a + "\n"@ + b).subrange(k, k + 1)[0] == "\n"@[0]);
            assert((a + "\n"@ + b)[k] == a[k]);
        }
    }
}

proof fn lemma_spaced_one_line(s: Seq<char>)
    requires
        one_line(s),
        " "@ == seq![' '],
    ensures
        one_line(" "@ + s),
{
    assert forall|i: int| 0 <= i < (" "@ + s).len() implies (" "@ + s)[i] != '\n' by {
        if i > 0 {
            assert((" "@ + s)[i] == s[i - 1]);
        }
    }
}

/// The lines of the list text are five per row and a last one.
proof fn lemma_lines_of_rows(rows: Seq<ListedRow>, j: int)
    requires
        0 <= j <= rows.len(),
        forall|k: int| 0 <= k < rows.len() ==> readable_row(#[trigger] rows[k]),
    ensures
        lines_of(" "@ + rows_concat(rows, j)) == row_lines(rows, j),
    decreases rows.len() - j,
{
    reveal_strlit(" ");
    reveal_strlit("\n");
    reveal_strlit("\n ");
    reveal_strlit(" -- ");
    let nl = "\n"@;
    assert(" "@ =~= seq![' ']);
    assert(free_of(" "@, nl)) by {
        assert forall|k: int| !occurs_at(" "@, nl, k) by {
            if occurs_at(" "@, nl, k) {
                assert(" "@.subrange(k, k + 1)[0] == nl[0]);
            }
        }
    }
    if j == rows.len() {
        assert(" "@ + rows_concat(rows, j) =~= " "@);
        lemma_split_whole(" "@, nl);
    } else {
        let r = rows[j];
        assert(readable_row(r));
        lemma_decimal_digits(r.linenum);
        let d = decimal(r.linenum);
        let p0 = " "@ + d + entry_mark() + r.name;
        let p1 = " "@ + r.dir;
        let p2 = " "@ + r.newin;
        let p3 = " "@ + r.newout;
        let p4 = " "@;
        let rest = " "@ + rows_concat(rows, j + 1);
        assert(one_line(p0)) by {
            assert forall|i: int| 0 <= i < p0.len() implies p0[i] != '\n' by {
                if i == 0 {
                } else if i < 1 + d.len() {
                    assert(p0[i] == d[i - 1]);
                    assert(is_digit(d[i - 1]));
                } else if i < 1 + d.len() + 4 {
                    assert(p0[i] == entry_mark()[i - 1 - d.len()]);
                } else {
                    assert(p0[i] == r.name[i - 5 - d.len()]);
                }
            }
        }
        lemma_spaced_one_line(r.dir);
        lemma_spaced_one_line(r.newin);
        lemma_spaced_one_line(r.newout);
        assert(one_line(p4));
        let t4 = p4 + nl + rest;
        let t3 = p3 + nl + t4;
        let t2 = p2 + nl + t3;
        let t1 = p1 + nl + t2;
        let t0 = p0 + nl + t1;
        assert(" "@ + rows_concat(rows, j) =~= t0);
        lemma_lines_of_rows(rows, j + 1);
        lemma_no_break_before(p4, rest);
        lemma_split_join(p4, nl, rest);
        lemma_no_break_before(p3, t4);
        lemma_split_join(p3, nl, t4);
        lemma_no_break_before(p2, t3);
        lemma_split_join(p2, nl, t3);
        lemma_no_break_before(p1, t2);
        lemma_split_join(p1, nl, t2);
        lemma_no_break_before(p0, t1);
        lemma_split_join(p0, nl, t1);
        assert(lines_of(t0) =~= row_lines(rows, j));
    }
}

/// Line `r` (below five) of row `k`'s block.
pub open spec fn block_line(row: ListedRow, r: int) -> Seq<char> {
    if r == 0 {
        " "@ + decimal(row.linenum) + entry_mark() + row.name
    } else if r == 1 {
        " "@ + row.dir
    } else if r == 2 {
        " "@ + row.newin
    } else if r == 3 {
        " "@ + row.newout
    } else {
        " "@
    }
}

proof fn lemma_row_lines_index(rows: Seq<ListedRow>, j: int)
    requires
        0 <= j <= rows.len(),
    ensures
        row_lines(rows, j).len() == 5 * (rows.len() - j) + 1,
        forall|k: int, r: int|
            j <= k < rows.len() && 0 <= r < 5 ==> #[trigger] row_lines(rows, j)[5 * (k - j) + r]
                == block_line(rows[k], r),
        row_lines(rows, j)[5 * (rows.len() - j)] == " "@,
    decreases rows.len() - j,
{
    if j < rows.len() {
        lemma_row_lines_index(rows, j + 1);
        let head = seq![
            block_line(rows[j], 0),
            block_line(rows[j], 1),
            block_line(rows[j], 2),
            block_line(rows[j], 3),
            block_line(rows[j], 4),
        ];
        assert(row_lines(rows, j) == head + row_lines(rows, j + 1));
        assert forall|k: int, r: int|
            j <= k < rows.len() && 0 <= r < 5 implies #[trigger] row_lines(rows, j)[5 * (k - j)
            + r] == block_line(rows[k], r) by {
            if k > j {
                assert(row_lines(rows, j)[5 * (k - j) + r] == row_lines(rows, j + 1)[5 * (k - (j
                    + 1)) + r]);
            }
        }
        assert(row_lines(rows, j)[5 * (rows.len() - j)] == row_lines(rows, j + 1)[5 * (rows.len()
            - (j + 1))]);
    }
}

proof fn lemma_trim_after_space(s: Seq<char>)
    requires
        " "@ == seq![' '],
    ensures
        trim(" "@ + s) == trim(s),
{
    assert(is_white(' '));
    assert((" "@ + s).drop_first() =~= s);
}

proof fn lemma_blank_line_passed(lines: Seq<Seq<char>>, i: int)
    requires
        0 <= i < lines.len(),
        lines[i] == " "@,
        " "@ == seq![' '],
        entry_mark().len() == 4,
    ensures
        scan_from(lines, i) == scan_from(lines, i + 1),
{
    assert(free_of(" "@, entry_mark()));
    lemma_split_whole(" "@, entry_mark());
}

/// A list made of rows that can be read back is read back row by row: the
/// walk finds row `j` at line `5 * j`, with its number (after a space) as
/// label, its file name, and its new input and output directories (trimmed)
/// as input and output directories; it passes over the blank line after each
/// row and ends after the last one.
pub proof fn lemma_list_read_back(rows: Seq<ListedRow>)
    requires
        forall|k: int| 0 <= k < rows.len() ==> readable_row(#[trigger] rows[k]),
    ensures
        ({
            let lines = lines_of(" "@ + rows_concat(rows, 0));
            &&& lines.len() == 5 * rows.len() + 1
            &&& forall|j: int|
                0 <= j < rows.len() ==> #[trigger] scan_from(lines, 5 * j) == ScanStep::Entry {
                    label: " "@ + decimal(rows[j].linenum),
                    filename: rows[j].name,
                    inputdir: trim(rows[j].newin),
                    outdir: trim(rows[j].newout),
                    at: 5 * j + 3,
                }
            &&& forall|j: int|
                0 <= j < rows.len() ==> #[trigger] scan_from(lines, 5 * j + 4) == scan_from(
                    lines,
                    5 * j + 5,
                )
            &&& scan_from(lines, 5 * rows.len() as int) == ScanStep::Done { at: (5 * rows.len() + 1) as int }
        }),
{
    reveal_strlit(" ");
    reveal_strlit(" -- ");
    assert(" "@ =~= seq![' ']);
    lemma_lines_of_rows(rows, 0);
    lemma_row_lines_index(rows, 0);
    let lines = lines_of(" "@ + rows_concat(rows, 0));
    let m = rows.len() as int;
    assert(lines[5 * (m - 0)] == " "@);
    lemma_blank_line_passed(lines, 5 * m);
    assert forall|j: int| 0 <= j < rows.len() implies #[trigger] scan_from(lines, 5 * j + 4)
        == scan_from(lines, 5 * j + 5) by {
        assert(lines[5 * (j - 0) + 4] == block_line(rows[j], 4));
        lemma_blank_line_passed(lines, 5 * j + 4);
    }
    assert forall|j: int| 0 <= j < rows.len() implies #[trigger] scan_from(lines, 5 * j)
        == ScanStep::Entry {
        label: " "@ + decimal(rows[j].linenum),
        filename: rows[j].name,
        inputdir: trim(rows[j].newin),
        outdir: trim(rows[j].newout),
        at: 5 * j + 3,
    } by {
        let r = rows[j];
        assert(readable_row(r));
        assert(lines[5 * (j - 0) + 0] == block_line(r, 0));
        assert(lines[5 * (j - 0) + 2] == block_line(r, 2));
        assert(lines[5 * (j - 0) + 3] == block_line(r, 3));
        lemma_decimal_digits(r.linenum);
        let a = " "@ + decimal(r.linenum);
        let d = decimal(r.linenum);
        let whole = a + entry_mark() + r.name;
        assert(whole == block_line(r, 0));
        assert forall|k: int| k < a.len() implies !occurs_at(whole, entry_mark(), k) by {
            if occurs_at(whole, entry_mark(), k) {
                let sub = whole.subrange(k, k + 4);
                assert(sub[0] == ' ');
                assert(sub[1] == '-');
                if k + 1 < a.len() {
                    assert(whole[k + 1] == d[k]);
                    assert(is_digit(d[k]));
                } else {
                    assert(whole[k] == d[k - 1]);
                    assert(is_digit(d[k - 1]));
                }
            }
        }
        lemma_split_join(a, entry_mark(), r.name);
        lemma_split_whole(r.name, entry_mark());
        assert(split_seq(whole, entry_mark()) =~= seq![a, r.name]);
        lemma_trim_after_space(r.newin);
        lemma_trim_after_space(r.newout);
    }
}

/// The row that line `linenum` of the list file gives, as the list builder
/// writes it.
pub open spec fn row_of(line: Seq<char>, linenum: nat, p: RowParams) -> ListedRow {
    let fields = split_seq(line, "|"@);
    let dir = unquote(fields[3]);
    let e = evaldirs_spec(dir, p.inptsubdir, p.inptpre, p.outsubdir, p.outdir);
    ListedRow { linenum, name: unquote(fields[0]), dir, newin: e.2, newout: e.3 }
}

/// The rows the list builder writes from line `k` of the list file on.
pub open spec fn appended_rows(lines: Seq<Seq<char>>, k: int, p: RowParams) -> Seq<ListedRow>
    decreases lines.len() - k,
{
    if k < 0 || k >= lines.len() {
        Seq::empty()
    } else {
        match row_step(lines[k], (k + 1) as nat, p) {
            RowStep::Skip => appended_rows(lines, k + 1, p),
            RowStep::Append(_) => seq![row_of(lines[k], (k + 1) as nat, p)] + appended_rows(
                lines,
                k + 1,
                p,
            ),
            _ => Seq::empty(),
        }
    }
}

proof fn lemma_rows_concat_cons(r: ListedRow, rest: Seq<ListedRow>, j: int)
    requires
        0 <= j <= rest.len(),
    ensures
        rows_concat(seq![r] + rest, j + 1) == rows_concat(rest, j),
    decreases rest.len() - j,
{
    if j < rest.len() {
        lemma_rows_concat_cons(r, rest, j + 1);
        assert((seq![r] + rest)[j + 1] == rest[j]);
    }
}

proof fn lemma_made_list_is_rows(lines: Seq<Seq<char>>, k: int, p: RowParams, list: Seq<char>)
    requires
        0 <= k <= lines.len(),
    ensures
        match rows_walk(lines, k, p, list) {
            Some((c, m, l)) => (c == 0 || c == 14) ==> l == list + rows_concat(
                appended_rows(lines, k, p),
                0,
            ),
            None => true,
        },
    decreases lines.len() - k,
{
    if k == lines.len() {
        assert(list + rows_concat(appended_rows(lines, k, p), 0) =~= list);
    } else {
        lemma_made_list_is_rows(lines, k + 1, p, list);
        match row_step(lines[k], (k + 1) as nat, p) {
            RowStep::Append(t) => {
                let r = row_of(lines[k], (k + 1) as nat, p);
                let rest = appended_rows(lines, k + 1, p);
                lemma_made_list_is_rows(lines, k + 1, p, list + t);
                lemma_rows_concat_cons(r, rest, 0);
                assert(t == row_text(r.linenum, r.name, r.dir, r.newin, r.newout));
                assert((seq![r] + rest)[0] == r);
                assert(list + t + rows_concat(rest, 0) =~= list + (t + rows_concat(rest, 0)));
            },
            _ => {},
        }
    }
}

/// A list that the list builder made (code 0) is `" "` followed by the rows
/// it wrote, and when those rows can be read back the check and the copy run
/// find exactly them, in order (see `lemma_list_read_back`).
pub proof fn lemma_made_list_read_back(lines: Seq<Seq<char>>, p: RowParams)
    requires
        rows_walk(lines, 0, p, " "@) matches Some((c, _, _)) && c == 0,
        forall|k: int|
            0 <= k < appended_rows(lines, 0, p).len() ==> readable_row(
                #[trigger] appended_rows(lines, 0, p)[k],
            ),
    ensures
        (rows_walk(lines, 0, p, " "@)->0).2 == " "@ + rows_concat(appended_rows(lines, 0, p), 0),
        ({
            let rows = appended_rows(lines, 0, p);
            let read = lines_of((rows_walk(lines, 0, p, " "@)->0).2);
            &&& read.len() == 5 * rows.len() + 1
            &&& forall|j: int|
                0 <= j < rows.len() ==> #[trigger] scan_from(read, 5 * j) == ScanStep::Entry {
                    label: " "@ + decimal(rows[j].linenum),
                    filename: rows[j].name,
                    inputdir: trim(rows[j].newin),
                    outdir: trim(rows[j].newout),
                    at: 5 * j + 3,
                }
            &&& forall|j: int|
                0 <= j < rows.len() ==> #[trigger] scan_from(read, 5 * j + 4) == scan_from(
                    read,
                    5 * j + 5,
                )
            &&& scan_from(read, 5 * rows.len() as int) == ScanStep::Done {
                at: (5 * rows.len() + 1) as int,
            }
        }),
{
    lemma_made_list_is_rows(lines, 0, p, " "@);
    lemma_list_read_back(appended_rows(lines, 0, p));
}

} // verus!
