//! The report text: one row per counted file and a total row.

use vstd::prelude::*;
use vstd::string::*;
use crate::count::Counts;
use crate::options::Flags;
use crate::reader::{CCWCFileReader, FileRecord};

verus! {

/// The decimal digit `d` as a character.
pub open spec fn digit_char(d: nat) -> char {
    if d == 0 { '0' }
    else if d == 1 { '1' }
    else if d == 2 { '2' }
    else if d == 3 { '3' }
    else if d == 4 { '4' }
    else if d == 5 { '5' }
    else if d == 6 { '6' }
    else if d == 7 { '7' }
    else if d == 8 { '8' }
    else { '9' }
}

/// The decimal writing of `n`, without leading zeros.
pub open spec fn decimal(n: nat) -> Seq<char>
    decreases n,
{
    if n < 10 {
        seq![digit_char(n)]
    } else {
        decimal(n / 10) + seq![digit_char(n % 10)]
    }
}

/// `k` spaces.
pub open spec fn spaces(k: nat) -> Seq<char> {
    Seq::new(k, |i: int| ' ')
}

/// `n` right-aligned in a field of at least eight characters, then one space.
pub open spec fn field(n: nat) -> Seq<char> {
    let d = decimal(n);
    let pad: nat = if d.len() < 8 { (8 - d.len()) as nat } else { 0 };
    spaces(pad) + d + seq![' ']
}

/// Which counters are shown, in the order lines, words, bytes, chars: the
/// requested ones, or lines, words and bytes when none was requested.
pub open spec fn shown(f: Flags) -> (bool, bool, bool, bool) {
    let none = !f.lines && !f.words && !f.bytes && !f.chars;
    (none || f.lines, none || f.words, none || f.bytes, f.chars)
}

/// `field(n)` where `show` holds, else nothing.
pub open spec fn field_if(show: bool, n: nat) -> Seq<char> {
    if show { field(n) } else { Seq::empty() }
}

/// One report row: the shown counters of `c`, then `label` and a line feed.
pub open spec fn row(f: Flags, c: Counts, label: Seq<char>) -> Seq<char> {
    let s = shown(f);
    field_if(s.0, c.lines as nat) + field_if(s.1, c.words as nat) + field_if(s.2, c.bytes as nat)
        + field_if(s.3, c.chars as nat) + label + seq!['\n']
}

/// The rows of the records `files`, in order.
pub open spec fn file_rows(f: Flags, files: Seq<FileRecord>) -> Seq<char>
    decreases files.len(),
{
    if files.len() == 0 {
        Seq::empty()
    } else {
        file_rows(f, files.drop_last()) + row(f, files.last().counts, files.last().name@)
    }
}

/// The whole report of a session: a row per file, and a total row when
/// more than one file was counted.
pub open spec fn report_text(r: CCWCFileReader) -> Seq<char> {
    file_rows(r.flags, r.files@) + if r.files@.len() > 1 {
        row(r.flags, r.totals(), "total"@)
    } else {
        Seq::empty()
    }
}

/// The notice for an argument that names no regular file.
pub open spec fn missing_text(name: Seq<char>) -> Seq<char> {
    "ccwc: "@ + name + ": open: No such file or directory"@
}

fn digit_str(d: usize) -> (r: &'static str)
    requires
        d < 10,
    ensures
        r@ == seq![digit_char(d as nat)],
{
    proof {
        reveal_strlit("0");
        reveal_strlit("1");
        reveal_strlit("2");
        reveal_strlit("3");
        reveal_strlit("4");
        reveal_strlit("5");
        reveal_strlit("6");
        reveal_strlit("7");
        reveal_strlit("8");
        reveal_strlit("9");
    }
    if d == 0 { "0" }
    else if d == 1 { "1" }
    else if d == 2 { "2" }
    else if d == 3 { "3" }
    else if d == 4 { "4" }
    else if d == 5 { "5" }
    else if d == 6 { "6" }
    else if d == 7 { "7" }
    else if d == 8 { "8" }
    else { "9" }
}

fn push_decimal(out: &mut String, n: usize)
    ensures
        final(out)@ == old(out)@ + decimal(n as nat),
    decreases n,
{
    if n >= 10 {
        push_decimal(out, n / 10);
    }
    out.append(digit_str(n % 10));
    assert(out@ =~= old(out)@ + decimal(n as nat));
}

fn digit_count(n: usize) -> (r: usize)
    ensures
        r == decimal(n as nat).len(),
    decreases n,
{
    if n < 10 {
        1
    } else {
        proof {
            lemma_decimal_len((n / 10) as nat);
        }
        digit_count(n / 10) + 1
    }
}

proof fn lemma_decimal_len(n: nat)
    ensures
        decimal(n).len() <= n + 1,
    decreases n,
{
    if n >= 10 {
        lemma_decimal_len(n / 10);
    }
}

/// Appends `field(n)` to `out`.
fn push_field(out: &mut String, n: usize)
    ensures
        final(out)@ == old(out)@ + field(n as nat),
{
    let len = digit_count(n);
    let mut k: usize = len;
    let ghost start = out@;
    while k < 8
        invariant
            len <= k <= 8 || (k == len && len >= 8),
            len == decimal(n as nat).len(),
            out@ == start + spaces((k - len) as nat),
        decreases 8 - k,
    {
        out.append(" ");
        proof {
            reveal_strlit(" ");
            assert(out@ =~= start + spaces((k + 1 - len) as nat));
        }
        k = k + 1;
    }
    push_decimal(out, n);
    out.append(" ");
    proof {
        reveal_strlit(" ");
        assert(out@ =~= old(out)@ + field(n as nat));
    }
}

/// Appends the row of counters `c` with `label` to `out`.
fn push_row(out: &mut String, f: Flags, c: Counts, label: &str)
    ensures
        final(out)@ == old(out)@ + row(f, c, label@),
{
    let ghost s = shown(f);
    let ghost start = out@;
    let none = !f.lines && !f.words && !f.bytes && !f.chars;
    if none || f.lines {
        push_field(out, c.lines);
    }
    assert(out@ =~= start + field_if(s.0, c.lines as nat));
    let ghost p1 = out@;
    if none || f.words {
        push_field(out, c.words);
    }
    assert(out@ =~= p1 + field_if(s.1, c.words as nat));
    let ghost p2 = out@;
    if none || f.bytes {
        push_field(out, c.bytes);
    }
    assert(out@ =~= p2 + field_if(s.2, c.bytes as nat));
    let ghost p3 = out@;
    if f.chars {
        push_field(out, c.chars);
    }
    assert(out@ =~= p3 + field_if(s.3, c.chars as nat));
    out.append(label);
    out.append("\n");
    proof {
        reveal_strlit("\n");
        assert(out@ =~= start + row(f, c, label@));
    }
}

/// The notice printed for an argument that names no regular file.
pub fn missing_file_message(file: &str) -> (r: String)
    ensures
        r@ == missing_text(file@),
{
    let mut m = String::from_str("ccwc: ");
    m.append(file);
    m.append(": open: No such file or directory");
    m
}

impl CCWCFileReader {
    /// The report of the session: for each counted file, in order, its
    /// shown counters and its name; then, when more than one file was
    /// counted, the totals labelled `total`. Each row ends with a line feed.
    pub fn report(&self) -> (r: String)
        ensures
            r@ == report_text(*self),
    {
        let mut out = String::new();
        for i in 0..self.files.len()
            invariant
                out@ == file_rows(self.flags, self.files@.take(i as int)),
        {
            let rec = &self.files[i];
            push_row(&mut out, self.flags, rec.counts, rec.name.as_str());
            assert(self.files@.take(i + 1).drop_last() =~= self.files@.take(i as int));
        }
        assert(self.files@.take(self.files@.len() as int) =~= self.files@);
        if self.files.len() > 1 {
            let totals = Counts {
                bytes: self.total_bytes,
                chars: self.total_chars,
                words: self.total_words,
                lines: self.total_lines,
            };
            push_row(&mut out, self.flags, totals, "total");
        }
        out
    }
}

} // verus!
