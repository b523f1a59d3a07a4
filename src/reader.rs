//! The counting session: flags, the files counted so far and their totals.

use vstd::prelude::*;
use vstd::string::*;
use crate::count::{content_counts, count_content, counts_of, Counts};
use crate::options::{
    apply_option, apply_options, file_args, first_invalid, illegal_char, illegal_message,
    is_option_letter, is_option_token, lemma_first_invalid, lemma_leading_letters,
    lemma_option_count, no_flags, option_body, option_count, option_tokens, option_valid,
    options_valid, set_letters, texts, Flags,
};

verus! {

/// One counted file: its name as given, and its counters.
#[derive(Debug)]
pub struct FileRecord {
    pub name: String,
    pub counts: Counts,
}

/// One run of the tool: the requested flags, the files counted so far in
/// argument order, and the running totals of their counters.
#[derive(Debug)]
pub struct CCWCFileReader {
    pub files: Vec<FileRecord>,
    pub flags: Flags,
    pub total_bytes: usize,
    pub total_chars: usize,
    pub total_words: usize,
    pub total_lines: usize,
}

pub open spec fn sum_bytes(s: Seq<FileRecord>) -> nat
    decreases s.len(),
{
    if s.len() == 0 { 0 } else { sum_bytes(s.drop_last()) + s.last().counts.bytes as nat }
}

pub open spec fn sum_chars(s: Seq<FileRecord>) -> nat
    decreases s.len(),
{
    if s.len() == 0 { 0 } else { sum_chars(s.drop_last()) + s.last().counts.chars as nat }
}

pub open spec fn sum_words(s: Seq<FileRecord>) -> nat
    decreases s.len(),
{
    if s.len() == 0 { 0 } else { sum_words(s.drop_last()) + s.last().counts.words as nat }
}

pub open spec fn sum_lines(s: Seq<FileRecord>) -> nat
    decreases s.len(),
{
    if s.len() == 0 { 0 } else { sum_lines(s.drop_last()) + s.last().counts.lines as nat }
}

/// Adding the counters of the content `b` to the totals `t` keeps each of
/// them within `usize`.
pub open spec fn fits_totals(t: Counts, b: Seq<u8>) -> bool {
    let c = content_counts(b);
    &&& t.bytes + c.0 <= usize::MAX
    &&& t.chars + c.1 <= usize::MAX
    &&& t.words + c.2 <= usize::MAX
    &&& t.lines + c.3 <= usize::MAX
}

/// The text of an argument starts with a dash.
fn starts_with_dash(arg: &String) -> (r: bool)
    ensures
        r == is_option_token(arg@),
{
    let s = arg.as_str();
    !s.is_empty() && s.get_char(0) == '-'
}

impl CCWCFileReader {
    /// Each total is the sum of that counter over the files counted so far.
    pub open spec fn wf(&self) -> bool {
        &&& self.total_bytes == sum_bytes(self.files@)
        &&& self.total_chars == sum_chars(self.files@)
        &&& self.total_words == sum_words(self.files@)
        &&& self.total_lines == sum_lines(self.files@)
    }

    /// The session totals as counters.
    pub open spec fn totals(&self) -> Counts {
        Counts {
            bytes: self.total_bytes,
            chars: self.total_chars,
            words: self.total_words,
            lines: self.total_lines,
        }
    }

    /// A session with the given flags and no file counted yet.
    pub fn with_flags(flags: Flags) -> (r: CCWCFileReader)
        ensures
            r.wf(),
            r.files@.len() == 0,
            r.flags == flags,
    {
        CCWCFileReader {
            files: Vec::new(),
            flags,
            total_bytes: 0,
            total_chars: 0,
            total_words: 0,
            total_lines: 0,
        }
    }

    /// Splits the arguments (without the program name) into option tokens
    /// and file names: the arguments up to the first one that does not
    /// start with a dash are options, that one and all after it are files.
    pub fn parse_args(args: Vec<String>) -> (r: (Vec<String>, Vec<String>))
        ensures
            texts(r.0@) == option_tokens(texts(args@)),
            texts(r.1@) == file_args(texts(args@)),
    {
        let ghost a = texts(args@);
        let mut end_of_options = false;
        let mut options: Vec<String> = Vec::new();
        let mut files: Vec<String> = Vec::new();
        for i in 0..args.len()
            invariant
                a == texts(args@),
                end_of_options == (files.len() > 0),
                options.len() + files.len() == i,
                forall|j: int| 0 <= j < options.len() ==> is_option_token(#[trigger] a[j]),
                end_of_options ==> !is_option_token(a[options.len() as int]),
                texts(options@) == a.take(options.len() as int),
                texts(files@) == a.subrange(options.len() as int, i as int),
        {
            let arg = &args[i];
            if starts_with_dash(arg) && !end_of_options {
                options.push(arg.clone());
                assert(texts(options@) =~= a.take(options.len() as int));
            } else {
                end_of_options = true;
                files.push(arg.clone());
                assert(texts(files@) =~= a.subrange(options.len() as int, i + 1));
            }
        }
        proof {
            lemma_option_count(a, options.len() as int);
            assert(texts(files@) =~= file_args(a));
        }
        (options, files)
    }

    /// Reads one option token: each character after its first sets the
    /// flag of its letter, until one that is not `c`, `l`, `w` or `m`,
    /// which ends the reading with the usage error for that character.
    pub fn validate_option(option: String, reader: &mut CCWCFileReader) -> (r: Result<(), String>)
        ensures
            r is Ok <==> option_valid(option@),
            r matches Err(m) ==> m@ == illegal_message(illegal_char(option@)),
            final(reader).flags == apply_option(old(reader).flags, option@),
            final(reader).files == old(reader).files,
            final(reader).totals() == old(reader).totals(),
    {
        let s = option.as_str();
        let n = s.unicode_len();
        let ghost body = option_body(option@);
        if n == 0 {
            return Ok(());
        }
        let mut i: usize = 1;
        while i < n
            invariant
                n == option@.len(),
                s@ == option@,
                body == option@.drop_first(),
                1 <= i <= n,
                forall|j: int| 0 <= j < i - 1 ==> is_option_letter(#[trigger] body[j]),
                reader.flags == set_letters(old(reader).flags, body.take(i - 1)),
                reader.files == old(reader).files,
                reader.totals() == old(reader).totals(),
            decreases n - i,
        {
            let c = s.get_char(i);
            assert(body[i - 1] == c);
            if c == 'c' {
                reader.flags.bytes = true;
            } else if c == 'l' {
                reader.flags.lines = true;
            } else if c == 'w' {
                reader.flags.words = true;
            } else if c == 'm' {
                reader.flags.chars = true;
            } else {
                proof {
                    lemma_leading_letters(body, i - 1);
                    assert(body.take(i - 1) =~= body.take((i - 1) as int));
                }
                let mut m = String::from_str("ccwc: illegal option -- ");
                m.append(s.substring_char(i, i + 1));
                m.append("\nusage: ccwc [-clmw] [file ...]");
                assert(s@.subrange(i as int, i + 1) =~= seq![c]);
                return Err(m);
            }
            assert(body.take(i as int).drop_last() =~= body.take(i - 1));
            i = i + 1;
        }
        proof {
            lemma_leading_letters(body, n - 1);
            assert(body.take(n - 1) =~= body.take(body.len() as int));
        }
        Ok(())
    }

    /// Counts the content of the file `path_to_file` and adds it to the
    /// session: its record goes after the files counted so far and its
    /// counters are added to the totals. Where a total would no longer fit
    /// in a `usize`, nothing changes and the result is `false`.
    pub fn process_file(&mut self, path_to_file: String, content: &[u8]) -> (added: bool)
        requires
            old(self).wf(),
        ensures
            final(self).wf(),
            final(self).flags == old(self).flags,
            added <==> fits_totals(old(self).totals(), content@),
            added ==> {
                &&& final(self).files@.len() == old(self).files@.len() + 1
                &&& final(self).files@.drop_last() == old(self).files@
                &&& final(self).files@.last().name@ == path_to_file@
                &&& counts_of(final(self).files@.last().counts, content@)
            },
            !added ==> final(self).files@ == old(self).files@,
            final(self).total_bytes == old(self).total_bytes + if added { content@.len() } else { 0 },
    {
        let c = count_content(content);
        if c.bytes > usize::MAX - self.total_bytes || c.chars > usize::MAX - self.total_chars
            || c.words > usize::MAX - self.total_words || c.lines > usize::MAX - self.total_lines {
            return false;
        }
        self.total_bytes = self.total_bytes + c.bytes;
        self.total_chars = self.total_chars + c.chars;
        self.total_words = self.total_words + c.words;
        self.total_lines = self.total_lines + c.lines;
        let ghost before = self.files@;
        self.files.push(FileRecord { name: path_to_file, counts: c });
        assert(self.files@.drop_last() =~= before);
        true
    }

    /// Starts a session from the arguments (without the program name):
    /// reads every option token in order and returns the session with the
    /// resulting flags and the file names to count, or the usage error of
    /// the first illegal option character.
    pub fn new(args: Vec<String>) -> (r: Result<(CCWCFileReader, Vec<String>), String>)
        ensures
            r is Ok <==> options_valid(option_tokens(texts(args@))),
            r matches Ok(p) ==> {
                &&& p.0.wf()
                &&& p.0.files@.len() == 0
                &&& p.0.flags == apply_options(no_flags(), option_tokens(texts(args@)))
                &&& texts(p.1@) == file_args(texts(args@))
            },
            r matches Err(m) ==> {
                let opts = option_tokens(texts(args@));
                m@ == illegal_message(illegal_char(opts[first_invalid(opts) as int]))
            },
    {
        let ghost a = texts(args@);
        let (options, files) = Self::parse_args(args);
        let ghost opts = texts(options@);
        assert(opts == option_tokens(a));
        let mut reader = Self::with_flags(Flags::none());
        for i in 0..options.len()
            invariant
                opts == texts(options@),
                opts == option_tokens(a),
                a == texts(args@),
                reader.wf(),
                reader.files@.len() == 0,
                forall|j: int| 0 <= j < i ==> option_valid(#[trigger] opts[j]),
                reader.flags == apply_options(no_flags(), opts.take(i as int)),
        {
            let option = options[i].clone();
            assert(option@ == opts[i as int]);
            let res = Self::validate_option(option, &mut reader);
            if let Err(m) = res {
                proof {
                    lemma_first_invalid(opts, i as int);
                    assert(!options_valid(opts));
                }
                return Err(m);
            }
            assert(opts.take(i + 1).drop_last() =~= opts.take(i as int));
        }
        assert(opts.take(opts.len() as int) =~= opts);
        Ok((reader, files))
    }
}

} // verus!
