//! Reading the command line.
//!
//! Kept apart from input and output so that every branch can be checked
//! without a terminal. Arguments are taken as the bytes the system gave:
//! an argument that is not UTF-8 is still a legal file name on Unix.

use vstd::prelude::*;

verus! {

/// What the arguments ask for.
#[derive(Debug, Clone, PartialEq, Eq)]
pub enum Command {
    /// List the configured directory of games.
    Library,
    /// Open the given file or directory (the path as the system's bytes).
    Open(Vec<u8>),
    /// Print the usage and succeed.
    Help,
    /// Print the usage and fail.
    Usage,
}

pub open spec fn view_word() -> Seq<u8> {
    seq![118u8, 105u8, 101u8, 119u8]
}

/// `-h`, `--help` or `help`.
pub open spec fn is_help_word(a: Seq<u8>) -> bool {
    a == seq![45u8, 104u8] || a == seq![45u8, 45u8, 104u8, 101u8, 108u8, 112u8] || a == seq![
        104u8,
        101u8,
        108u8,
        112u8,
    ]
}

fn bytes_eq(a: &[u8], b: &[u8]) -> (r: bool)
    ensures
        r == (a@ == b@),
{
    if a.len() != b.len() {
        return false;
    }
    let mut i: usize = 0;
    while i < a.len()
        invariant
            a@.len() == b@.len(),
            i <= a@.len(),
            forall|k: int| 0 <= k < i ==> a@[k] == b@[k],
        decreases a@.len() - i,
    {
        if a[i] != b[i] {
            return false;
        }
        i = i + 1;
    }
    assert(a@ =~= b@);
    true
}

/// Reads the arguments that follow the program's name.
pub fn parse(args: Vec<Vec<u8>>) -> (cmd: Command)
    ensures
        (cmd is Library) <==> args@.len() == 0,
        (cmd is Open) <==> (args@.len() == 2 && args@[0]@ == view_word()),
        cmd matches Command::Open(path) ==> path@ == args@[1]@,
        (cmd is Help) <==> (args@.len() == 1 && is_help_word(args@[0]@)),
{
    if args.len() == 0 {
        return Command::Library;
    }
    let view: [u8; 4] = [118u8, 105u8, 101u8, 119u8];
    assert(view@ =~= view_word());
    if bytes_eq(args[0].as_slice(), &view) {
        if args.len() == 2 {
            let path = args[1].clone();
            return Command::Open(path);
        }
        return Command::Usage;
    }
    let short: [u8; 2] = [45u8, 104u8];
    let long: [u8; 6] = [45u8, 45u8, 104u8, 101u8, 108u8, 112u8];
    let word: [u8; 4] = [104u8, 101u8, 108u8, 112u8];
    assert(short@ =~= seq![45u8, 104u8]);
    assert(long@ =~= seq![45u8, 45u8, 104u8, 101u8, 108u8, 112u8]);
    assert(word@ =~= seq![104u8, 101u8, 108u8, 112u8]);
    let first = args[0].as_slice();
    if (bytes_eq(first, &short) || bytes_eq(first, &long) || bytes_eq(first, &word)) && args.len()
        == 1 {
        return Command::Help;
    }
    Command::Usage
}

} // verus!
