//! Reading the two build-step modes off the command line.

use vstd::prelude::*;

verus! {

/// Index of the first argument at or after `from` equal to `flag`, or `-1`.
pub open spec fn first_flag_from(args: Seq<String>, flag: Seq<char>, from: int) -> int
    decreases args.len() - from,
{
    if from < 0 || from >= args.len() {
        -1
    } else if args[from]@ == flag {
        from
    } else {
        first_flag_from(args, flag, from + 1)
    }
}

/// Index of the first argument equal to `flag`, or `-1`.
pub open spec fn first_flag(args: Seq<String>, flag: Seq<char>) -> int {
    first_flag_from(args, flag, 0)
}

/// The first match is a match, nothing before it matches, and it lies in
/// range.
proof fn lemma_first_flag_from(args: Seq<String>, flag: Seq<char>, from: int)
    requires
        0 <= from,
    ensures
        first_flag_from(args, flag, from) == -1 || (from <= first_flag_from(args, flag, from)
            < args.len() && args[first_flag_from(args, flag, from)]@ == flag),
        forall|i: int|
            from <= i < args.len() && (first_flag_from(args, flag, from) == -1 || i
                < first_flag_from(args, flag, from)) ==> #[trigger] args[i]@ != flag,
    decreases args.len() - from,
{
    if from < args.len() && args[from]@ != flag {
        lemma_first_flag_from(args, flag, from + 1);
    }
}

/// Position of the first argument equal to `flag`, if any.
fn find_flag(args: &Vec<String>, flag: &String) -> (r: Option<usize>)
    ensures
        match r {
            Some(j) => j == first_flag(args@, flag@) && j < args@.len(),
            None => first_flag(args@, flag@) == -1,
        },
{
    let mut i: usize = 0;
    while i < args.len()
        invariant
            i <= args@.len(),
            forall|x: int| 0 <= x < i ==> #[trigger] args@[x]@ != flag@,
            first_flag_from(args@, flag@, i as int) == first_flag(args@, flag@),
        decreases args.len() - i,
    {
        if args[i] == *flag {
            return Some(i);
        }
        i = i + 1;
    }
    None
}

/// Output directory of `--gen-i18n <dir>`: the argument right after the
/// first `--gen-i18n`, or `None` when the flag is absent or last.
///
/// `args` are the arguments after the program name.
pub fn gen_i18n_dir(args: &Vec<String>) -> (r: Option<String>)
    ensures
        ({
            let j = first_flag(args@, "--gen-i18n"@);
            &&& r is Some <==> (j >= 0 && j + 1 < args@.len())
            &&& r is Some ==> r->Some_0@ == args@[j + 1]@
        }),
{
    let flag = "--gen-i18n".to_owned();
    proof {
        lemma_first_flag_from(args@, flag@, 0);
    }
    match find_flag(args, &flag) {
        Some(j) => {
            if args.len() - j > 1 {
                Some(args[j + 1].clone())
            } else {
                None
            }
        },
        None => None,
    }
}

/// Input and output fonts of `--strip-icon-font <in> <out>`: the two
/// arguments after the first `--strip-icon-font`, or `None` when either is
/// missing.
///
/// `args` are the arguments after the program name.
pub fn strip_icon_font_paths(args: &Vec<String>) -> (r: Option<(String, String)>)
    ensures
        ({
            let j = first_flag(args@, "--strip-icon-font"@);
            &&& r is Some <==> (j >= 0 && j + 2 < args@.len())
            &&& r is Some ==> r->Some_0.0@ == args@[j + 1]@ && r->Some_0.1@ == args@[j + 2]@
        }),
{
    let flag = "--strip-icon-font".to_owned();
    proof {
        lemma_first_flag_from(args@, flag@, 0);
    }
    match find_flag(args, &flag) {
        Some(j) => {
            if args.len() - j > 2 {
                Some((args[j + 1].clone(), args[j + 2].clone()))
            } else {
                None
            }
        },
        None => None,
    }
}

} // verus!
