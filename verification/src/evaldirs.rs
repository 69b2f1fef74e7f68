//! Re-rooting a list entry's directory under new input and output prefixes.
use vstd::prelude::*;
use crate::text::{
    append_chars, chars_of, decimal, decimal_i64, decimal_u64, find_first, find_from, int_decimal,
    join_seq, lemma_find_from, lemma_join_split_from, lemma_split_shift, same_chars, split_on,
    split_seq, string_of, subrange_of,
};

verus! {

/// The marker for a directory that has not been chosen.
pub open spec fn unset() -> Seq<char> {
    "--"@
}

/// What is left of `s` after its first `/`, if it has one.
pub open spec fn after_first_slash(s: Seq<char>) -> Option<Seq<char>> {
    match find_from(s, "/"@, 0) {
        Some(i) => Some(s.subrange(i + 1, s.len() as int)),
        None => None,
    }
}

/// Drops the first `k` components of `s`, one `/` at a time; the flag tells
/// that a `/` was missing, and the text is then what was left at that point.
pub open spec fn strip_components(s: Seq<char>, k: int) -> (Seq<char>, bool)
    decreases k,
{
    if k <= 0 {
        (s, false)
    } else {
        match after_first_slash(s) {
            Some(rest) => strip_components(rest, k - 1),
            None => (s, true),
        }
    }
}

/// How many `/`-separated components `s` has.
pub open spec fn component_count(s: Seq<char>) -> nat {
    split_seq(s, "/"@).len()
}

/// `prefix`, a `/`, then `rest`.
pub open spec fn join_dir(prefix: Seq<char>, rest: Seq<char>) -> Seq<char> {
    prefix + "/"@ + rest
}

/// The outcome for one side (input or output): error code, message, and the
/// new directory.
pub struct Placed {
    pub code: u32,
    pub message: Seq<char>,
    pub dir: Seq<char>,
}

/// The input side: the new input directory for `firstent` under `prefix`,
/// after dropping `num` leading components.
pub open spec fn input_side(firstent: Seq<char>, num: i32, prefix: Seq<char>) -> Placed {
    if prefix == unset() {
        Placed { code: 0, message: " "@, dir: firstent }
    } else if num == 0 {
        Placed { code: 0, message: " "@, dir: prefix + firstent }
    } else if num > (component_count(firstent) as i32) {
        Placed {
            code: 1,
            message: "input pre number of "@ + int_decimal(num as int)
                + " greater than number of subdirectories of "@ + decimal(component_count(firstent)),
            dir: unset(),
        }
    } else {
        let (rest, missing) = strip_components(firstent, num as int);
        if missing {
            Placed {
                code: 2,
                message: "could not split once firstent value "@ + rest,
                dir: join_dir(prefix, rest),
            }
        } else {
            Placed { code: 0, message: " "@, dir: join_dir(prefix, rest) }
        }
    }
}

/// The output side: the new output directory for `firstent` under `prefix`,
/// after dropping `num` leading components.
pub open spec fn output_side(firstent: Seq<char>, num: i32, prefix: Seq<char>) -> Placed {
    if prefix == unset() {
        Placed { code: 0, message: " "@, dir: prefix }
    } else if num == 0 {
        Placed { code: 0, message: " "@, dir: prefix + firstent }
    } else if num > (component_count(firstent) as i32) {
        Placed {
            code: 2,
            message: "output indent of "@ + int_decimal(num as int)
                + " greater than number of subdirectories of "@ + decimal(component_count(firstent)),
            dir: unset(),
        }
    } else {
        let (rest, missing) = strip_components(firstent, num as int);
        if missing {
            Placed {
                code: 2,
                message: "could not split once firstent value "@ + rest,
                dir: join_dir(prefix, rest),
            }
        } else {
            Placed { code: 0, message: " "@, dir: join_dir(prefix, rest) }
        }
    }
}

/// Error code, message, new input directory and new output directory for
/// `firstent`; the output side is looked at only when the input side went well.
pub open spec fn evaldirs_spec(
    firstent: Seq<char>,
    inptprenum: i32,
    inptprestr: Seq<char>,
    outnum: i32,
    outstr: Seq<char>,
) -> (u32, Seq<char>, Seq<char>, Seq<char>) {
    let inp = input_side(firstent, inptprenum, inptprestr);
    if inp.code != 0 {
        (inp.code, inp.message, inp.dir, unset())
    } else {
        let out = output_side(firstent, outnum, outstr);
        (out.code, out.message, inp.dir, out.dir)
    }
}

/// Drops `k` leading components of `v` (see `strip_components`).
fn strip_exec(v: &Vec<char>, k: i32) -> (r: (Vec<char>, bool))
    ensures
        (r.0@, r.1) == strip_components(v@, k as int),
{
    let slash = chars_of("/");
    proof {
        reveal_strlit("/");
    }
    let mut cur: Vec<char> = v.clone();
    let mut done: i32 = 0;
    while done < k
        invariant
            slash@ == "/"@,
            slash.len() == 1,
            0 <= done,
            done <= k || k <= 0,
            strip_components(v@, k as int) == strip_components(cur@, k - done),
        decreases k - done,
    {
        match find_first(&cur, &slash) {
            Some(i) => {
                let rest = subrange_of(&cur, i + 1, cur.len());
                assert(after_first_slash(cur@) == Some(rest@));
                cur = rest;
                done = done + 1;
            },
            None => {
                assert(after_first_slash(cur@) == None::<Seq<char>>);
                return (cur, true);
            },
        }
    }
    (cur, false)
}

/// Concatenation of three character vectors.
fn concat3(a: &Vec<char>, b: &Vec<char>, c: &Vec<char>) -> (r: Vec<char>)
    ensures
        r@ == a@ + b@ + c@,
{
    let mut r = a.clone();
    append_chars(&mut r, b);
    append_chars(&mut r, c);
    r
}

/// One side of `evaldirs`; `input` selects the input side's codes and wording.
fn place_side(firstent: &Vec<char>, num: i32, prefix: &Vec<char>, input: bool) -> (r: (
    u32,
    Vec<char>,
    Vec<char>,
))
    ensures
        input ==> (r.0, r.1@, r.2@) == ({
            let p = input_side(firstent@, num, prefix@);
            (p.code, p.message, p.dir)
        }),
        !input ==> (r.0, r.1@, r.2@) == ({
            let p = output_side(firstent@, num, prefix@);
            (p.code, p.message, p.dir)
        }),
{
    let dashes = chars_of("--");
    let space = chars_of(" ");
    if same_chars(prefix, &dashes) {
        if input {
            (0, space, firstent.clone())
        } else {
            (0, space, prefix.clone())
        }
    } else if num == 0 {
        let mut d = prefix.clone();
        append_chars(&mut d, firstent);
        (0, space, d)
    } else {
        let slash = chars_of("/");
        proof {
            reveal_strlit("/");
        }
        let pieces = split_on(firstent, &slash);
        let n = pieces.len();
        proof {
            assert(n == component_count(firstent@));
        }
        if num > n as i32 {
            let head = if input {
                chars_of("input pre number of ")
            } else {
                chars_of("output indent of ")
            };
            let mid = chars_of(" greater than number of subdirectories of ");
            let mut msg = concat3(&head, &decimal_i64(num as i64), &mid);
            append_chars(&mut msg, &decimal_u64(n as u64));
            (if input {
                1
            } else {
                2
            }, msg, dashes)
        } else {
            let (rest, missing) = strip_exec(firstent, num);
            let dir = concat3(prefix, &slash, &rest);
            if missing {
                let mut msg = chars_of("could not split once firstent value ");
                append_chars(&mut msg, &rest);
                (2, msg, dir)
            } else {
                (0, space, dir)
            }
        }
    }
}

/// Works out where the entry directory `firstent` goes: the new input
/// directory under `inptprestr` after dropping `inptprenum` leading
/// components, and the new output directory under `outstr` after dropping
/// `outnum` of them. Returns the error code (0 when all went well), a message,
/// the new input directory and the new output directory.
pub fn evaldirs(firstent: String, inptprenum: i32, inptprestr: String, outnum: i32, outstr: String) -> (r: (
    u32,
    String,
    String,
    String,
))
    ensures
        (r.0, r.1@, r.2@, r.3@) == evaldirs_spec(firstent@, inptprenum, inptprestr@, outnum, outstr@),
{
    let fe = chars_of(firstent.as_str());
    let ip = chars_of(inptprestr.as_str());
    let op = chars_of(outstr.as_str());
    let (c1, m1, d1) = place_side(&fe, inptprenum, &ip, true);
    if c1 != 0 {
        let dashes = chars_of("--");
        return (c1, string_of(&m1), string_of(&d1), string_of(&dashes));
    }
    let (c2, m2, d2) = place_side(&fe, outnum, &op, false);
    (c2, string_of(&m2), string_of(&d1), string_of(&d2))
}

/// With neither prefix chosen the entry keeps its directory and no output
/// directory is set, whatever the indents; with a prefix and an indent of 0 the new directory is
/// the prefix followed by the entry's directory.
pub proof fn lemma_evaldirs_prefixes(
    firstent: Seq<char>,
    inptprenum: i32,
    inptprestr: Seq<char>,
    outnum: i32,
    outstr: Seq<char>,
)
    ensures
        evaldirs_spec(firstent, inptprenum, unset(), outnum, unset()) == (0u32, " "@, firstent, unset()),
        inptprestr != unset() && outstr != unset() ==> evaldirs_spec(
            firstent,
            0,
            inptprestr,
            0,
            outstr,
        ) == (0u32, " "@, inptprestr + firstent, outstr + firstent),
{
}

proof fn lemma_components_after_slash(s: Seq<char>)
    ensures
        match after_first_slash(s) {
            Some(b) => split_seq(s, "/"@) == seq![s.subrange(0, s.len() - b.len() - 1)] + split_seq(
                b,
                "/"@,
            ),
            None => split_seq(s, "/"@) == seq![s],
        },
{
    reveal_strlit("/");
    let sep = "/"@;
    lemma_find_from(s, sep, 0);
    match find_from(s, sep, 0) {
        Some(i) => {
            let a = s.subrange(0, i + 1);
            let b = s.subrange(i + 1, s.len() as int);
            assert(s =~= a + b);
            lemma_split_shift(a, b, sep, 0);
        },
        None => {
            assert(s.subrange(0, s.len() as int) =~= s);
        },
    }
}

/// Dropping `k` leading components of a directory leaves the remaining
/// components joined by `/`; asking to drop all of them stops at the last
/// one, with the flag set.
pub proof fn lemma_strip_drops_components(s: Seq<char>, k: int)
    requires
        0 <= k <= component_count(s),
    ensures
        k < component_count(s) ==> strip_components(s, k) == (
            join_seq(split_seq(s, "/"@).skip(k), "/"@),
            false,
        ),
        k == component_count(s) ==> strip_components(s, k) == (split_seq(s, "/"@).last(), true),
    decreases k,
{
    reveal_strlit("/");
    lemma_components_after_slash(s);
    if k == 0 {
        lemma_join_split_from(s, "/"@, 0);
        assert(split_seq(s, "/"@).skip(0) =~= split_seq(s, "/"@));
        assert(s.subrange(0, s.len() as int) =~= s);
        lemma_count_positive(s);
    } else {
        match after_first_slash(s) {
            Some(b) => {
                lemma_strip_drops_components(b, k - 1);
                assert(split_seq(s, "/"@).skip(k) =~= split_seq(b, "/"@).skip(k - 1));
            },
            None => {},
        }
    }
}

proof fn lemma_count_positive(s: Seq<char>)
    ensures
        component_count(s) >= 1,
{
    reveal_strlit("/");
    lemma_find_from(s, "/"@, 0);
}

/// With an input prefix chosen and an indent `k` below the number of
/// components of the entry directory, the new input directory is the prefix,
/// `/`, and the entry directory's components after the first `k`, joined by
/// `/`; the output side behaves the same way. (The count is compared as an
/// `i32`, so directories of more components than that holds are left out.)
pub proof fn lemma_evaldirs_reroots(firstent: Seq<char>, k: i32, prefix: Seq<char>)
    requires
        prefix != unset(),
        0 < k < component_count(firstent),
        component_count(firstent) <= i32::MAX,
    ensures
        input_side(firstent, k, prefix) == (Placed {
            code: 0,
            message: " "@,
            dir: prefix + "/"@ + join_seq(split_seq(firstent, "/"@).skip(k as int), "/"@),
        }),
        output_side(firstent, k, prefix) == (Placed {
            code: 0,
            message: " "@,
            dir: prefix + "/"@ + join_seq(split_seq(firstent, "/"@).skip(k as int), "/"@),
        }),
{
    lemma_strip_drops_components(firstent, k as int);
    assert(component_count(firstent) as i32 == component_count(firstent));
}

/// The two sides are worked out independently. Whatever the input indent and
/// prefix, as long as the input side succeeds, the code, message and new
/// output directory depend on the output indent and directory alone; and the
/// new input directory never depends on the output indent and directory.
/// With an output directory chosen and an output indent of 0, the new output
/// directory is that directory followed by the entry's directory.
pub proof fn lemma_evaldirs_sides_independent(
    firstent: Seq<char>,
    k1: i32,
    p1: Seq<char>,
    k2: i32,
    p2: Seq<char>,
    outnum: i32,
    outstr: Seq<char>,
    outnum2: i32,
    outstr2: Seq<char>,
)
    requires
        input_side(firstent, k1, p1).code == 0,
        input_side(firstent, k2, p2).code == 0,
    ensures
        evaldirs_spec(firstent, k1, p1, outnum, outstr).0 == evaldirs_spec(firstent, k2, p2, outnum, outstr).0,
        evaldirs_spec(firstent, k1, p1, outnum, outstr).1 == evaldirs_spec(firstent, k2, p2, outnum, outstr).1,
        evaldirs_spec(firstent, k1, p1, outnum, outstr).3 == evaldirs_spec(firstent, k2, p2, outnum, outstr).3,
        evaldirs_spec(firstent, k1, p1, outnum, outstr).2 == evaldirs_spec(firstent, k1, p1, outnum2, outstr2).2,
        outstr != unset() ==> evaldirs_spec(firstent, k1, p1, 0, outstr) == (
            0u32,
            " "@,
            input_side(firstent, k1, p1).dir,
            outstr + firstent,
        ),
        outstr == unset() ==> evaldirs_spec(firstent, k1, p1, outnum, outstr).3 == unset(),
        evaldirs_spec(firstent, k1, p1, outnum, outstr).2 == input_side(firstent, k1, p1).dir,
{
}

} // verus!
