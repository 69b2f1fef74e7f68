# hdcopy4bkup

A window for copying files named in a hard-disk list file to a backup
directory. The list file has one row per file, fields separated by `|`; field
0 is the file name and field 3 its directory. The window builds a copy list
for a range of rows, re-rooting each directory under a chosen input prefix and
output directory, checks the list against the disk, and copies.

- `src/` is the verified library (Verus):
  - `text.rs`: splitting on a separator, trimming white space, decimal
    numbers written and read as `format!` and `str::parse` do;
  - `evaldirs.rs`: the new input and output directories of an entry;
  - `makelist.rs`: building the copy list from rows of the list file;
  - `listing.rs`: walking a copy list row by row;
  - `testpress.rs`: the check made before copying, and what it depends on;
  - `copying.rs`: the decisions of a copy run;
  - `panel.rs`: the window's state and what each event does to it;
  - `roundtrip.rs`: a list that was built is read back row by row;
  - `tasks.rs`: the value the progress poll hands back.
- `app/` is the program around it: the iced window, the dialogs, reading the
  list file, checking paths on disk, running `mkdir` and `cp`, and the
  progress bar with its times.
- `tests/` runs the library on concrete values.
