//! The flag set and the rules that read option tokens.

use vstd::prelude::*;

verus! {

/// Which counters were asked for on the command line, one field per
/// recognised option letter.
#[derive(Clone, Copy, Debug, PartialEq, Eq, Structural)]
pub struct Flags {
    /// `-c`
    pub bytes: bool,
    /// `-l`
    pub lines: bool,
    /// `-w`
    pub words: bool,
    /// `-m`
    pub chars: bool,
}

impl Flags {
    /// The flag set before any option is read: nothing requested.
    pub fn none() -> (r: Flags)
        ensures
            r == no_flags(),
    {
        Flags { bytes: false, lines: false, words: false, chars: false }
    }
}

pub open spec fn no_flags() -> Flags {
    Flags { bytes: false, lines: false, words: false, chars: false }
}

/// One of the four recognised option letters.
pub open spec fn is_option_letter(c: char) -> bool {
    c == 'c' || c == 'l' || c == 'w' || c == 'm'
}

/// `f` with the flag of letter `c` set; other characters change nothing.
pub open spec fn set_letter(f: Flags, c: char) -> Flags {
    if c == 'c' {
        Flags { bytes: true, ..f }
    } else if c == 'l' {
        Flags { lines: true, ..f }
    } else if c == 'w' {
        Flags { words: true, ..f }
    } else if c == 'm' {
        Flags { chars: true, ..f }
    } else {
        f
    }
}

/// `f` with the flags of all letters of `s` set, in order.
pub open spec fn set_letters(f: Flags, s: Seq<char>) -> Flags
    decreases s.len(),
{
    if s.len() == 0 {
        f
    } else {
        set_letter(set_letters(f, s.drop_last()), s.last())
    }
}

/// The characters of an option token after its leading dash.
pub open spec fn option_body(opt: Seq<char>) -> Seq<char> {
    if opt.len() == 0 {
        opt
    } else {
        opt.drop_first()
    }
}

/// Number of option letters at the start of `s`.
pub open spec fn leading_letters(s: Seq<char>) -> nat
    decreases s.len(),
{
    if s.len() == 0 {
        0
    } else if is_option_letter(s[0]) {
        1 + leading_letters(s.drop_first())
    } else {
        0
    }
}

/// Every character of the option token after its dash is a recognised letter.
pub open spec fn option_valid(opt: Seq<char>) -> bool {
    leading_letters(option_body(opt)) == option_body(opt).len()
}

/// The first character after the dash that is not a recognised letter.
pub open spec fn illegal_char(opt: Seq<char>) -> char {
    option_body(opt)[leading_letters(option_body(opt)) as int]
}

/// The flags after reading one option token: the letters before the first
/// illegal character, or all of them.
pub open spec fn apply_option(f: Flags, opt: Seq<char>) -> Flags {
    let body = option_body(opt);
    set_letters(f, body.take(leading_letters(body) as int))
}

/// The two-line usage error for the illegal option character `c`.
pub open spec fn illegal_message(c: char) -> Seq<char> {
    "ccwc: illegal option -- "@ + seq![c] + "\nusage: ccwc [-clmw] [file ...]"@
}

/// All option tokens are valid.
pub open spec fn options_valid(opts: Seq<Seq<char>>) -> bool {
    forall|i: int| 0 <= i < opts.len() ==> option_valid(#[trigger] opts[i])
}

/// The flags after reading the valid option tokens `opts` in order.
pub open spec fn apply_options(f: Flags, opts: Seq<Seq<char>>) -> Flags
    decreases opts.len(),
{
    if opts.len() == 0 {
        f
    } else {
        apply_option(apply_options(f, opts.drop_last()), opts.last())
    }
}

/// Index of the first invalid option token, or the number of tokens.
pub open spec fn first_invalid(opts: Seq<Seq<char>>) -> nat
    decreases opts.len(),
{
    if opts.len() == 0 {
        0
    } else if !option_valid(opts[0]) {
        0
    } else {
        1 + first_invalid(opts.drop_first())
    }
}

/// An argument that starts with a dash.
pub open spec fn is_option_token(arg: Seq<char>) -> bool {
    arg.len() > 0 && arg[0] == '-'
}

/// Number of leading arguments read as options: those before the first
/// argument that does not start with a dash.
pub open spec fn option_count(args: Seq<Seq<char>>) -> nat
    decreases args.len(),
{
    if args.len() == 0 {
        0
    } else if is_option_token(args[0]) {
        1 + option_count(args.drop_first())
    } else {
        0
    }
}

/// The option tokens among the arguments `a`.
pub open spec fn option_tokens(a: Seq<Seq<char>>) -> Seq<Seq<char>> {
    a.take(option_count(a) as int)
}

/// The file names among the arguments `a`: all that follow the option tokens.
pub open spec fn file_args(a: Seq<Seq<char>>) -> Seq<Seq<char>> {
    a.skip(option_count(a) as int)
}

/// The text of each string of `v`.
pub open spec fn texts(v: Seq<String>) -> Seq<Seq<char>> {
    v.map_values(|s: String| s@)
}

/// `leading_letters` is the length of the run of letters that the first
/// non-letter, or the end, closes.
pub(crate) proof fn lemma_leading_letters(s: Seq<char>, k: int)
    requires
        0 <= k <= s.len(),
        forall|j: int| 0 <= j < k ==> is_option_letter(#[trigger] s[j]),
        k == s.len() || !is_option_letter(s[k]),
    ensures
        leading_letters(s) == k,
    decreases k,
{
    if k > 0 {
        let r = s.drop_first();
        assert forall|j: int| 0 <= j < k - 1 implies is_option_letter(#[trigger] r[j]) by {
            assert(r[j] == s[j + 1]);
        }
        lemma_leading_letters(r, k - 1);
    }
}

/// `option_count` is the length of the run of option tokens that the first
/// other argument, or the end, closes.
pub(crate) proof fn lemma_option_count(args: Seq<Seq<char>>, k: int)
    requires
        0 <= k <= args.len(),
        forall|j: int| 0 <= j < k ==> is_option_token(#[trigger] args[j]),
        k == args.len() || !is_option_token(args[k]),
    ensures
        option_count(args) == k,
    decreases k,
{
    if k > 0 {
        let r = args.drop_first();
        assert forall|j: int| 0 <= j < k - 1 implies is_option_token(#[trigger] r[j]) by {
            assert(r[j] == args[j + 1]);
        }
        lemma_option_count(r, k - 1);
    }
}

/// `first_invalid` is the index of the first token that is not valid.
pub(crate) proof fn lemma_first_invalid(opts: Seq<Seq<char>>, k: int)
    requires
        0 <= k <= opts.len(),
        forall|j: int| 0 <= j < k ==> option_valid(#[trigger] opts[j]),
        k == opts.len() || !option_valid(opts[k]),
    ensures
        first_invalid(opts) == k,
    decreases k,
{
    if k > 0 {
        let r = opts.drop_first();
        assert forall|j: int| 0 <= j < k - 1 implies option_valid(#[trigger] r[j]) by {
            assert(r[j] == opts[j + 1]);
        }
        lemma_first_invalid(r, k - 1);
    }
}

} // verus!
