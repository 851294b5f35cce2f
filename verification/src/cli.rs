//! The command line before it is parsed: a path given without a command
//! means `send`.

use crate::text::text_eq;
use vstd::prelude::*;

verus! {

/// Whether a word is a command or a flag that stands in place of one.
pub open spec fn is_known_command(word: Seq<char>) -> bool {
    word == "send"@ || word == "s"@ || word == "receive"@ || word == "r"@ || word == "help"@
        || word == "--help"@ || word == "-h"@ || word == "--version"@ || word == "-V"@
}

/// The texts that some strings spell.
pub open spec fn words(args: Seq<String>) -> Seq<Seq<char>> {
    args.map_values(|arg: String| arg@)
}

/// The arguments with `send` put in as the command where the first argument
/// is none: `ded ./file` means `ded send ./file`.
pub open spec fn with_default_command(args: Seq<Seq<char>>) -> Seq<Seq<char>> {
    if args.len() < 2 || is_known_command(args[1]) {
        args
    } else {
        seq![args[0], "send"@] + args.skip(1)
    }
}

fn known_command(word: &str) -> (known: bool)
    ensures
        known == is_known_command(word@),
{
    text_eq(word, "send") || text_eq(word, "s") || text_eq(word, "receive") || text_eq(word, "r")
        || text_eq(word, "help") || text_eq(word, "--help") || text_eq(word, "-h") || text_eq(
        word,
        "--version",
    ) || text_eq(word, "-V")
}

/// Puts `send` in as the command where the arguments name none.
pub fn preprocess_args(args: Vec<String>) -> (res: Vec<String>)
    ensures
        words(res@) == with_default_command(words(args@)),
{
    if args.len() < 2 || known_command(args[1].as_str()) {
        return args;
    }
    let mut res: Vec<String> = Vec::new();
    res.push(args[0].clone());
    res.push("send".to_owned());
    let mut i: usize = 1;
    while i < args.len()
        invariant
            1 <= i <= args@.len(),
            res@.len() == i + 1,
            res@[0]@ == args@[0]@,
            res@[1]@ == "send"@,
            forall|j: int| 1 <= j < i ==> res@[j + 1]@ == args@[j]@,
        decreases args@.len() - i,
    {
        res.push(args[i].clone());
        i += 1;
    }
    assert(words(res@) =~= with_default_command(words(args@)));
    res
}

} // verus!
