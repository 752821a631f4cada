//! The concatenator: every line of every source, in order, plain or with a
//! line number in front.

use crate::cli::{exit_status, refusal, status_after, ArgsError};
use crate::decimal::{
    append_decimal, decimal, decimal_width, is_digit, lemma_decimal_reads_back, numeral_value,
};
use crate::source::standard_input;
use crate::text::{copy_of, lemma_texts_add, lemma_texts_push, text_of, texts, texts_of};
use clap::{Arg, Command};
use vstd::prelude::*;
use vstd::string::*;

verus! {

/// How the lines are numbered.
#[derive(Clone, Copy, Debug)]
pub enum Numbering {
    /// No line has a number.
    Plain,
    /// Every line has a number.
    All,
    /// Every line that is not empty has a number.
    Nonblank,
}

/// What one invocation of the concatenator is asked to do.
#[derive(Debug)]
pub struct Config {
    /// The names of the sources, in order; `-` is the standard input.
    pub files: Vec<String>,
    /// Whether every line gets a number.
    pub number_lines: bool,
    /// Whether every line that is not empty gets a number.
    pub number_nonblank_lines: bool,
}

impl Config {
    /// The numbering that the two flags select: each one alone selects its
    /// own, and any other pair selects none.
    pub open spec fn numbering_of(&self) -> Numbering {
        if self.number_lines && !self.number_nonblank_lines {
            Numbering::All
        } else if !self.number_lines && self.number_nonblank_lines {
            Numbering::Nonblank
        } else {
            Numbering::Plain
        }
    }

    /// The numbering that the two flags select.
    pub fn numbering(&self) -> (r: Numbering)
        ensures
            r == self.numbering_of(),
    {
        match (self.number_lines, self.number_nonblank_lines) {
            (true, false) => Numbering::All,
            (false, true) => Numbering::Nonblank,
            _ => Numbering::Plain,
        }
    }

    /// Whether this is the configuration for what the parser found: the
    /// sources named, or the standard input alone where none is, and the two
    /// flags.
    pub open spec fn is_for(
        &self,
        files: Option<Seq<Seq<char>>>,
        number_lines: bool,
        number_nonblank_lines: bool,
    ) -> bool {
        &&& texts(self.files@) == match files {
            Some(names) if names.len() > 0 => names,
            _ => seq![standard_input()],
        }
        &&& self.number_lines == number_lines
        &&& self.number_nonblank_lines == number_nonblank_lines
    }

    /// The configuration for what the parser found: the sources named, or the
    /// standard input alone where none is, and the two flags.
    pub fn new(files: Option<Vec<String>>, number_lines: bool, number_nonblank_lines: bool) -> (c:
        Config)
        ensures
            texts(c.files@) == match files {
                Some(names) if names@.len() > 0 => texts(names@),
                _ => seq![standard_input()],
            },
            c.number_lines == number_lines,
            c.number_nonblank_lines == number_nonblank_lines,
            c.is_for(texts_of(files), number_lines, number_nonblank_lines),
    {
        let files = match files {
            Some(names) if names.len() > 0 => names,
            _ => {
                let mut names: Vec<String> = Vec::new();
                names.push(String::from_str("-"));
                assert(texts(names@) =~= seq![standard_input()]);
                names
            },
        };
        Config { files, number_lines, number_nonblank_lines }
    }
}

/// What clap finds on the concatenator's command line `args`, the program's
/// name first. Where it accepts the command line: the values of `FILE`,
/// whether `-n` is there, and whether `-b` is. Where it does not: its
/// message, and whether that belongs on the error stream.
pub uninterp spec fn catr_found(args: Seq<Seq<char>>) -> Result<
    (Option<Seq<Seq<char>>>, bool, bool),
    (Seq<char>, bool),
>;

/// What was found, as sequences of characters.
pub open spec fn found_view(found: Result<(Option<Vec<String>>, bool, bool), (String, bool)>)
    -> Result<(Option<Seq<Seq<char>>>, bool, bool), (Seq<char>, bool)> {
    match found {
        Ok((files, number, nonblank)) => Ok((texts_of(files), number, nonblank)),
        Err((message, on_error_stream)) => Err((message@, on_error_stream)),
    }
}

/// Parses the command line `args`, the program's name first, with clap's
/// `Command::try_get_matches_from`, on a command with any number of `FILE`
/// names (`-` by default, bytes that are no UTF-8 allowed), `-n`/`--number`,
/// and `-b`/`--number-nonblank`, which conflicts with `-n`. What was found is
/// read with `ArgMatches::values_of_lossy` and `ArgMatches::is_present`; an
/// error gives its text and `Error::use_stderr`.
///
/// Trusted. The result is a function of `args` alone, named `catr_found`:
/// built without its optional features, clap reads neither the environment
/// nor the terminal. By the documentation of `Arg::conflicts_with`, a command
/// line on which both flags are present is an error.
#[verifier::external_body]
fn found(args: &Vec<String>) -> (r: Result<(Option<Vec<String>>, bool, bool), (String, bool)>)
    ensures
        found_view(r) == catr_found(texts(args@)),
        r matches Ok((_, number, nonblank)) ==> !(number && nonblank),
{
    let files = Arg::new("files").value_name("FILE").help("Concat FILE(s) to standard output")
        .multiple_values(true).default_value("-").hide_default_value(true).allow_invalid_utf8(true);
    let number = Arg::new("number_lines").help("number all output lines").short('n')
        .long("number").takes_value(false);
    let nonblank = Arg::new("number_nonblank").help("number nonempty output lines").short('b')
        .long("number-nonblank").conflicts_with("number_lines").takes_value(false);
    let command = Command::new("catr").version("0.1.0").about("Rust cat");
    match command.arg(files).arg(number).arg(nonblank).try_get_matches_from(args) {
        Ok(m) => Ok((m.values_of_lossy("files"), m.is_present("number_lines"),
            m.is_present("number_nonblank"))),
        Err(error) => Err((error.to_string(), error.use_stderr())),
    }
}

/// Reads the configuration from the command line `args`, the program's name
/// first. Where the parser accepts the command line, the configuration is
/// the one for what it found: the sources named, or the standard input alone
/// where none is, and the two flags, which are never both set. Where it does
/// not, the error carries the parser's message: a refusal, or the help or
/// version that was asked for.
pub fn get_args(args: &Vec<String>) -> (r: Result<Config, ArgsError>)
    ensures
        match catr_found(texts(args@)) {
            Ok((files, number, nonblank)) => r matches Ok(config) && config.is_for(
                files,
                number,
                nonblank,
            ),
            Err((message, on_error_stream)) => r matches Err(error) && error.is_refusal(
                message,
                on_error_stream,
            ),
        },
        r matches Ok(config) ==> config.files@.len() > 0 && !(config.number_lines
            && config.number_nonblank_lines),
{
    match found(args) {
        Ok((files, number, nonblank)) => {
            let config = Config::new(files, number, nonblank);
            assert(texts(config.files@).len() > 0);
            Ok(config)
        },
        Err((message, on_error_stream)) => Err(refusal(message, on_error_stream)),
    }
}

/// The width to which a line number is padded on the left.
pub const NUMBER_WIDTH: usize = 6;

/// `k` blanks; none where `k` is not positive.
pub open spec fn blanks(k: int) -> Seq<char> {
    Seq::new(
        if k > 0 {
            k as nat
        } else {
            0
        },
        |i: int| ' ',
    )
}

/// The number column of line `n`: its decimal numeral, right-aligned with
/// blanks to `NUMBER_WIDTH` characters (wider numerals are not cut), then a
/// tab.
pub open spec fn number_column(n: nat) -> Seq<char> {
    blanks(NUMBER_WIDTH - decimal(n).len()) + decimal(n) + seq!['\t']
}

/// Every line with its number in front, counting from 1.
pub open spec fn numbered(lines: Seq<Seq<char>>) -> Seq<Seq<char>> {
    Seq::new(lines.len(), |k: int| number_column((k + 1) as nat) + lines[k])
}

/// How many of the first `k` lines are not empty.
pub open spec fn nonblank_before(lines: Seq<Seq<char>>, k: int) -> nat
    decreases k,
{
    if k <= 0 {
        0
    } else {
        nonblank_before(lines, k - 1) + if lines[k - 1].len() > 0 {
            1nat
        } else {
            0nat
        }
    }
}

/// Every non-empty line with its number in front, counting the non-empty
/// lines from 1; an empty line stays empty.
pub open spec fn numbered_nonblank(lines: Seq<Seq<char>>) -> Seq<Seq<char>> {
    Seq::new(
        lines.len(),
        |k: int|
            if lines[k].len() == 0 {
                Seq::<char>::empty()
            } else {
                number_column(nonblank_before(lines, k) + 1) + lines[k]
            },
    )
}

/// What stands in `line` before its first tab; all of it where it has none.
pub open spec fn before_tab(line: Seq<char>) -> Seq<char>
    decreases line.len(),
{
    if line.len() == 0 || line[0] == '\t' {
        Seq::empty()
    } else {
        seq![line[0]] + before_tab(line.drop_first())
    }
}

/// The text without the blanks that it starts with.
pub open spec fn skip_blanks(text: Seq<char>) -> Seq<char>
    decreases text.len(),
{
    if text.len() > 0 && text[0] == ' ' {
        skip_blanks(text.drop_first())
    } else {
        text
    }
}

/// The number that a line of the output carries: what the text between its
/// leading blanks and its first tab is worth as a numeral. `None` where that
/// text is no numeral, as in an empty line.
pub open spec fn number_of(line: Seq<char>) -> Option<nat> {
    numeral_value(skip_blanks(before_tab(line)))
}

/// A text without a tab, then a tab, then anything: what stands before the
/// first tab is that text.
proof fn lemma_before_tab(column: Seq<char>, rest: Seq<char>)
    requires
        forall|i: int| 0 <= i < column.len() ==> column[i] != '\t',
    ensures
        before_tab(column + seq!['\t'] + rest) == column,
    decreases column.len(),
{
    let line = column + seq!['\t'] + rest;
    if column.len() == 0 {
        assert(line[0] == '\t');
        assert(before_tab(line) =~= column);
    } else {
        assert(line[0] == column[0]);
        assert(line.drop_first() =~= column.drop_first() + seq!['\t'] + rest);
        lemma_before_tab(column.drop_first(), rest);
        assert(before_tab(line) =~= column);
    }
}

/// Blanks before a text that starts with no blank are all that is skipped.
proof fn lemma_skip_blanks(k: int, text: Seq<char>)
    requires
        text.len() > 0,
        text[0] != ' ',
    ensures
        skip_blanks(blanks(k) + text) == text,
    decreases k,
{
    if k <= 0 {
        assert(blanks(k) + text =~= text);
    } else {
        assert((blanks(k) + text)[0] == ' ');
        assert((blanks(k) + text).drop_first() =~= blanks(k - 1) + text);
        lemma_skip_blanks(k - 1, text);
    }
}

/// The number column of `n` carries the number `n`, whatever follows it.
pub proof fn lemma_number_column_reads_back(n: nat, rest: Seq<char>)
    ensures
        number_of(number_column(n) + rest) == Some(n),
{
    lemma_decimal_reads_back(n);
    let digits = decimal(n);
    let column = blanks(NUMBER_WIDTH - digits.len()) + digits;
    assert forall|i: int| 0 <= i < column.len() implies column[i] != '\t' by {
        if i >= column.len() - digits.len() {
            assert(is_digit(digits[i - (column.len() - digits.len())]));
        }
    }
    assert(is_digit(digits[0]));
    lemma_before_tab(column, rest);
    assert(number_column(n) + rest =~= column + seq!['\t'] + rest);
    lemma_skip_blanks(NUMBER_WIDTH - digits.len(), digits);
}

/// Without numbering, the lines come out as they went in.
pub proof fn lemma_plain_lines(lines: Seq<Seq<char>>)
    ensures
        emitted(Numbering::Plain, lines) == lines,
{
}

/// Where every line is numbered, there are as many lines out as in, and the
/// line at position `k`, counted from 1, is the input line behind the
/// number `k`.
pub proof fn lemma_numbered_lines(lines: Seq<Seq<char>>)
    ensures
        emitted(Numbering::All, lines).len() == lines.len(),
        forall|k: int|
            #![trigger emitted(Numbering::All, lines)[k]]
            0 <= k < lines.len() ==> {
                &&& emitted(Numbering::All, lines)[k] == number_column((k + 1) as nat) + lines[k]
                &&& number_of(emitted(Numbering::All, lines)[k]) == Some((k + 1) as nat)
            },
{
    assert forall|k: int| 0 <= k < lines.len() implies number_of(
        #[trigger] emitted(Numbering::All, lines)[k],
    ) == Some((k + 1) as nat) by {
        lemma_number_column_reads_back((k + 1) as nat, lines[k]);
    }
}

/// Where the lines that are not empty are numbered, there are as many lines
/// out as in. An empty line comes out empty: no number, no tab. A line that
/// is not empty comes out behind its number, which is one more than the
/// count of such lines before it.
pub proof fn lemma_nonblank_lines(lines: Seq<Seq<char>>)
    ensures
        emitted(Numbering::Nonblank, lines).len() == lines.len(),
        forall|k: int|
            #![trigger emitted(Numbering::Nonblank, lines)[k]]
            0 <= k < lines.len() ==> {
                let out = emitted(Numbering::Nonblank, lines)[k];
                if lines[k].len() == 0 {
                    out.len() == 0 && number_of(out) is None
                } else {
                    &&& out == number_column(nonblank_before(lines, k) + 1) + lines[k]
                    &&& number_of(out) == Some(nonblank_before(lines, k) + 1)
                }
            },
{
    assert forall|k: int| 0 <= k < lines.len() implies {
        let out = #[trigger] emitted(Numbering::Nonblank, lines)[k];
        if lines[k].len() == 0 {
            out.len() == 0 && number_of(out) is None
        } else {
            &&& out == number_column(nonblank_before(lines, k) + 1) + lines[k]
            &&& number_of(out) == Some(nonblank_before(lines, k) + 1)
        }
    } by {
        if lines[k].len() > 0 {
            lemma_number_column_reads_back(nonblank_before(lines, k) + 1, lines[k]);
        }
    }
}

/// The numbers of the lines that are not empty rise by one from each such
/// line to the next: the first has the number 1, and between two of them
/// the numbers differ by the count of such lines from the first to just
/// before the second.
pub proof fn lemma_nonblank_numbers_rise(lines: Seq<Seq<char>>, i: int, j: int)
    requires
        0 <= i <= j <= lines.len(),
    ensures
        nonblank_before(lines, 0) == 0,
        nonblank_before(lines, i) <= nonblank_before(lines, j) <= nonblank_before(lines, i) + (j
            - i),
        i < j && lines[i].len() > 0 ==> nonblank_before(lines, i) < nonblank_before(lines, j),
        (forall|k: int| i <= k < j ==> lines[k].len() == 0) ==> nonblank_before(lines, j)
            == nonblank_before(lines, i),
    decreases j - i,
{
    if i < j {
        lemma_nonblank_numbers_rise(lines, i, j - 1);
    }
}

/// No number is left out: every number from 1 to the count of lines that
/// are not empty among the first `k` is the number of one of those lines.
pub proof fn lemma_nonblank_numbers_have_no_gaps(lines: Seq<Seq<char>>, k: int, number: nat)
    requires
        0 <= k <= lines.len(),
        1 <= number <= nonblank_before(lines, k),
    ensures
        exists|i: int|
            0 <= i < k && lines[i].len() > 0 && #[trigger] nonblank_before(lines, i) + 1
                == number,
    decreases k,
{
    if lines[k - 1].len() > 0 && nonblank_before(lines, k - 1) + 1 == number {
        assert(nonblank_before(lines, k - 1) + 1 == number);
    } else {
        lemma_nonblank_numbers_have_no_gaps(lines, k - 1, number);
    }
}

/// The number column of line `n` as a text.
pub fn number_column_text(n: usize) -> (r: String)
    ensures
        r@ == number_column(n as nat),
{
    let width = decimal_width(n);
    let mut out = String::new();
    let mut k: usize = width;
    while k < NUMBER_WIDTH
        invariant
            width <= k,
            k == width || k <= NUMBER_WIDTH,
            out@ == blanks(k - width),
        decreases NUMBER_WIDTH - k,
    {
        proof {
            reveal_strlit(" ");
        }
        out.append(" ");
        k = k + 1;
        assert(out@ =~= blanks(k - width));
    }
    assert(out@ =~= blanks(NUMBER_WIDTH - width));
    append_decimal(&mut out, n);
    proof {
        reveal_strlit("\t");
    }
    out.append("\t");
    assert(out@ =~= number_column(n as nat));
    out
}

/// A line with its number column in front.
fn numbered_line(n: usize, line: &String) -> (r: String)
    ensures
        r@ == number_column(n as nat) + line@,
{
    let mut out = number_column_text(n);
    out.append(line.as_str());
    out
}

/// The lines as they are.
pub fn plain_lines(lines: &Vec<String>) -> (out: Vec<String>)
    ensures
        texts(out@) == texts(lines@),
{
    let mut out: Vec<String> = Vec::new();
    let mut k: usize = 0;
    while k < lines.len()
        invariant
            k <= lines.len(),
            texts(out@) == texts(lines@.take(k as int)),
        decreases lines.len() - k,
    {
        let line = lines[k].clone();
        proof {
            lemma_texts_push(out@, line);
            assert(texts(lines@.take(k + 1)) =~= texts(lines@.take(k as int)).push(lines[k as int]@));
        }
        out.push(line);
        k = k + 1;
    }
    assert(lines@.take(k as int) =~= lines@);
    out
}

/// Every line with its number in front, counting from 1.
pub fn number_lines(lines: &Vec<String>) -> (out: Vec<String>)
    ensures
        texts(out@) == numbered(texts(lines@)),
{
    let mut out: Vec<String> = Vec::new();
    let mut k: usize = 0;
    while k < lines.len()
        invariant
            k <= lines.len(),
            texts(out@) == numbered(texts(lines@)).take(k as int),
        decreases lines.len() - k,
    {
        let line = numbered_line(k + 1, &lines[k]);
        proof {
            lemma_texts_push(out@, line);
            assert(numbered(texts(lines@)).take(k + 1) =~= numbered(texts(lines@)).take(
                k as int,
            ).push(line@));
        }
        out.push(line);
        k = k + 1;
    }
    assert(numbered(texts(lines@)).take(k as int) =~= numbered(texts(lines@)));
    out
}

/// Every non-empty line with its number in front, counting the non-empty
/// lines from 1; an empty line stays empty.
pub fn number_nonblank_lines(lines: &Vec<String>) -> (out: Vec<String>)
    ensures
        texts(out@) == numbered_nonblank(texts(lines@)),
{
    let mut out: Vec<String> = Vec::new();
    let mut k: usize = 0;
    let mut seen: usize = 0;
    while k < lines.len()
        invariant
            k <= lines.len(),
            seen <= k,
            seen == nonblank_before(texts(lines@), k as int),
            texts(out@) == numbered_nonblank(texts(lines@)).take(k as int),
        decreases lines.len() - k,
    {
        let line = if lines[k].as_str().is_empty() {
            String::new()
        } else {
            seen = seen + 1;
            numbered_line(seen, &lines[k])
        };
        proof {
            lemma_texts_push(out@, line);
            assert(numbered_nonblank(texts(lines@)).take(k + 1) =~= numbered_nonblank(
                texts(lines@),
            ).take(k as int).push(line@));
        }
        out.push(line);
        k = k + 1;
    }
    assert(numbered_nonblank(texts(lines@)).take(k as int) =~= numbered_nonblank(texts(lines@)));
    out
}

/// What reading a source gave.
pub enum Reading {
    /// The source could not be opened.
    Unopened {
        /// Why it could not be opened.
        reason: String,
    },
    /// The source was opened and read.
    Opened {
        /// The lines that were read, without their line ends.
        lines: Vec<String>,
        /// Why reading stopped before the end of the source, if it did.
        failure: Option<String>,
    },
}

/// One source, and what reading it gave.
pub struct Source {
    /// The name of the source.
    pub name: String,
    /// What reading it gave.
    pub reading: Reading,
}

/// What an invocation leaves behind: the lines for the standard output, the
/// warnings for the error stream, and the failure that ended it, if any.
pub struct Report {
    /// The lines of the standard output, without their line ends.
    pub lines: Vec<String>,
    /// The warnings, one for each source that could not be opened.
    pub warnings: Vec<String>,
    /// The read failure that ended the invocation, if any.
    pub failure: Option<String>,
}

/// A report as sequences of characters.
pub ghost struct Outcome {
    /// The lines of the standard output.
    pub lines: Seq<Seq<char>>,
    /// The warnings.
    pub warnings: Seq<Seq<char>>,
    /// The failure that ended the invocation, if any.
    pub failure: Option<Seq<char>>,
}

impl View for Report {
    type V = Outcome;

    open spec fn view(&self) -> Outcome {
        Outcome {
            lines: texts(self.lines@),
            warnings: texts(self.warnings@),
            failure: text_of(self.failure),
        }
    }
}

/// The lines as one text, each with a line end after it.
pub open spec fn terminated(lines: Seq<Seq<char>>) -> Seq<char>
    decreases lines.len(),
{
    if lines.len() == 0 {
        Seq::empty()
    } else {
        terminated(lines.drop_last()) + lines.last() + "\n"@
    }
}

impl Report {
    /// The text of the standard output: every line with a line end after it.
    pub fn text(&self) -> (out: String)
        ensures
            out@ == terminated(self@.lines),
    {
        assert(self@.lines.skip(0) =~= self@.lines);
        self.text_from(0)
    }

    /// The exit status of the invocation: 1 after a read failure, else 0,
    /// whatever could not be opened.
    pub fn exit_status(&self) -> (r: u8)
        ensures
            r == status_after(self@.failure),
    {
        exit_status(&self.failure)
    }
}

/// The lines as the numbering writes them.
pub open spec fn emitted(numbering: Numbering, lines: Seq<Seq<char>>) -> Seq<Seq<char>> {
    match numbering {
        Numbering::Plain => lines,
        Numbering::All => numbered(lines),
        Numbering::Nonblank => numbered_nonblank(lines),
    }
}

/// The warning for a source that could not be opened.
pub open spec fn open_warning(name: Seq<char>, reason: Seq<char>) -> Seq<char> {
    "Failed to open "@ + name + ": "@ + reason
}

/// The outcome after one more source. After a failure nothing is added. A
/// source that could not be opened adds a warning and nothing else. A source
/// that was read adds its lines, each numbering starting anew, and its
/// failure, if it has one.
pub open spec fn after_source(before: Outcome, numbering: Numbering, source: Source) -> Outcome {
    if before.failure is Some {
        before
    } else {
        match source.reading {
            Reading::Unopened { reason } => Outcome {
                lines: before.lines,
                warnings: before.warnings.push(open_warning(source.name@, reason@)),
                failure: None,
            },
            Reading::Opened { lines, failure } => Outcome {
                lines: before.lines + emitted(numbering, texts(lines@)),
                warnings: before.warnings,
                failure: text_of(failure),
            },
        }
    }
}

/// How many of the first `k` lines of a source carry a number.
pub open spec fn numbered_before(numbering: Numbering, lines: Seq<Seq<char>>, k: int) -> nat {
    match numbering {
        Numbering::Plain => 0,
        Numbering::All => if k > 0 {
            k as nat
        } else {
            0
        },
        Numbering::Nonblank => nonblank_before(lines, k),
    }
}

/// One line as the numbering writes it, where `numbered` lines of its source
/// carry a number before it.
pub open spec fn emitted_line(numbering: Numbering, numbered: nat, line: Seq<char>) -> Seq<char> {
    match numbering {
        Numbering::Plain => line,
        Numbering::All => number_column(numbered + 1) + line,
        Numbering::Nonblank => if line.len() == 0 {
            Seq::<char>::empty()
        } else {
            number_column(numbered + 1) + line
        },
    }
}

/// How many lines of a source carry a number after `line`, where `numbered`
/// did before it.
pub open spec fn numbered_after(numbering: Numbering, numbered: nat, line: Seq<char>) -> nat {
    match numbering {
        Numbering::Plain => numbered,
        Numbering::All => numbered + 1,
        Numbering::Nonblank => if line.len() == 0 {
            numbered
        } else {
            numbered + 1
        },
    }
}

/// The outcome after one more line of the source that is being read, where
/// `numbered` lines of that source carry a number before it. After a failure
/// nothing is added.
pub open spec fn after_line(
    before: Outcome,
    numbering: Numbering,
    numbered: nat,
    line: Seq<char>,
) -> Outcome {
    if before.failure is Some {
        before
    } else {
        Outcome {
            lines: before.lines.push(emitted_line(numbering, numbered, line)),
            warnings: before.warnings,
            failure: None,
        }
    }
}

/// The outcome after reading has failed for `reason`. A failure before it
/// stays.
pub open spec fn after_failure(before: Outcome, reason: Seq<char>) -> Outcome {
    if before.failure is Some {
        before
    } else {
        Outcome { lines: before.lines, warnings: before.warnings, failure: Some(reason) }
    }
}

/// The lines of a source can be taken one by one: written with the count of
/// numbered lines before it, the line at `k` is the line at `k` of the
/// source written as a whole, and the count goes on as the whole counts.
pub proof fn lemma_line_by_line(numbering: Numbering, lines: Seq<Seq<char>>, k: int)
    requires
        0 <= k < lines.len(),
    ensures
        numbered_before(numbering, lines, 0) == 0,
        emitted(numbering, lines)[k] == emitted_line(
            numbering,
            numbered_before(numbering, lines, k),
            lines[k],
        ),
        numbered_before(numbering, lines, k + 1) == numbered_after(
            numbering,
            numbered_before(numbering, lines, k),
            lines[k],
        ),
{
}

/// The outcome of an invocation that has seen no source yet.
pub open spec fn nothing() -> Outcome {
    Outcome { lines: Seq::empty(), warnings: Seq::empty(), failure: None }
}

/// The outcome of the sources, taken in order.
pub open spec fn outcome(numbering: Numbering, sources: Seq<Source>) -> Outcome
    decreases sources.len(),
{
    if sources.len() == 0 {
        nothing()
    } else {
        after_source(outcome(numbering, sources.drop_last()), numbering, sources.last())
    }
}

/// A failure ends the invocation: the sources after it change nothing.
pub proof fn lemma_failure_ends(numbering: Numbering, sources: Seq<Source>, k: int)
    requires
        0 <= k <= sources.len(),
        outcome(numbering, sources.take(k)).failure is Some,
    ensures
        outcome(numbering, sources) == outcome(numbering, sources.take(k)),
    decreases sources.len() - k,
{
    if k == sources.len() {
        assert(sources.take(k) =~= sources);
    } else {
        assert(sources.take(k + 1).drop_last() =~= sources.take(k));
        lemma_failure_ends(numbering, sources, k + 1);
    }
}

/// The outcome after the first `k` lines of a source, taken one by one with
/// the count of numbered lines going on from line to line.
pub open spec fn after_lines(
    before: Outcome,
    numbering: Numbering,
    lines: Seq<Seq<char>>,
    k: int,
) -> Outcome
    decreases k,
{
    if k <= 0 {
        before
    } else {
        after_line(
            after_lines(before, numbering, lines, k - 1),
            numbering,
            numbered_before(numbering, lines, k - 1),
            lines[k - 1],
        )
    }
}

/// The first `k` lines of a source, taken one by one, add to the outcome the
/// first `k` lines of the source written as a whole.
proof fn lemma_after_lines(before: Outcome, numbering: Numbering, lines: Seq<Seq<char>>, k: int)
    requires
        0 <= k <= lines.len(),
        before.failure is None,
    ensures
        after_lines(before, numbering, lines, k) == (Outcome {
            lines: before.lines + emitted(numbering, lines).take(k),
            warnings: before.warnings,
            failure: None,
        }),
    decreases k,
{
    if k == 0 {
        assert(before.lines + emitted(numbering, lines).take(0) =~= before.lines);
    } else {
        lemma_after_lines(before, numbering, lines, k - 1);
        lemma_line_by_line(numbering, lines, k - 1);
        assert(emitted(numbering, lines).len() == lines.len());
        assert((before.lines + emitted(numbering, lines).take(k - 1)).push(
            emitted(numbering, lines)[k - 1],
        ) =~= before.lines + emitted(numbering, lines).take(k));
    }
}

/// A source that was read can be taken line by line: its lines one by one,
/// then its failure, if it has one, give the outcome of the source taken as
/// a whole.
pub proof fn lemma_source_line_by_line(before: Outcome, numbering: Numbering, source: Source)
    requires
        source.reading is Opened,
    ensures
        after_source(before, numbering, source) == ({
            let lines = texts(source.reading->Opened_lines@);
            let read = after_lines(before, numbering, lines, lines.len() as int);
            match source.reading->Opened_failure {
                Some(reason) => after_failure(read, reason@),
                None => read,
            }
        }),
{
    let lines = texts(source.reading->Opened_lines@);
    if before.failure is None {
        lemma_after_lines(before, numbering, lines, lines.len() as int);
        assert(emitted(numbering, lines).len() == lines.len());
        assert(emitted(numbering, lines).take(lines.len() as int) =~= emitted(numbering, lines));
    } else {
        lemma_after_lines_of_ended(before, numbering, lines, lines.len() as int);
    }
}

/// After a failure, lines change nothing.
proof fn lemma_after_lines_of_ended(
    before: Outcome,
    numbering: Numbering,
    lines: Seq<Seq<char>>,
    k: int,
)
    requires
        before.failure is Some,
    ensures
        after_lines(before, numbering, lines, k) == before,
    decreases k,
{
    if k > 0 {
        lemma_after_lines_of_ended(before, numbering, lines, k - 1);
    }
}

/// One source that was read gives its lines, as the numbering writes them,
/// no warning, and its own failure, if it has one.
pub proof fn lemma_one_source(numbering: Numbering, source: Source)
    requires
        source.reading is Opened,
    ensures
        outcome(numbering, seq![source]) == (Outcome {
            lines: emitted(numbering, texts(source.reading->Opened_lines@)),
            warnings: Seq::empty(),
            failure: text_of(source.reading->Opened_failure),
        }),
{
    let sources = seq![source];
    assert(sources.drop_last() =~= Seq::<Source>::empty());
    let first = outcome(numbering, sources.drop_last());
    assert(first.lines + emitted(numbering, texts(source.reading->Opened_lines@)) =~= emitted(
        numbering,
        texts(source.reading->Opened_lines@),
    ));
}

/// The lines as the numbering writes them.
pub fn emit(numbering: Numbering, lines: &Vec<String>) -> (out: Vec<String>)
    ensures
        texts(out@) == emitted(numbering, texts(lines@)),
{
    match numbering {
        Numbering::Plain => plain_lines(lines),
        Numbering::All => number_lines(lines),
        Numbering::Nonblank => number_nonblank_lines(lines),
    }
}

/// The warning for a source that could not be opened.
pub fn warning(name: &String, reason: &String) -> (text: String)
    ensures
        text@ == open_warning(name@, reason@),
{
    let mut text = String::from_str("Failed to open ");
    text.append(name.as_str());
    text.append(": ");
    text.append(reason.as_str());
    text
}

impl Report {
    /// The report of an invocation that has seen no source yet.
    pub fn new() -> (report: Report)
        ensures
            report@ == nothing(),
    {
        let report = Report { lines: Vec::new(), warnings: Vec::new(), failure: None };
        assert(report@.lines =~= Seq::<Seq<char>>::empty());
        assert(report@.warnings =~= Seq::<Seq<char>>::empty());
        report
    }

    /// Whether a read failure has ended the invocation, so that no further
    /// source changes the report.
    pub fn ended(&self) -> (r: bool)
        ensures
            r == self@.failure is Some,
    {
        self.failure.is_some()
    }

    /// Takes one more source into the report: after a failure nothing; for a
    /// source that could not be opened a warning; for one that was read its
    /// lines, numbered as the configuration asks, and its failure, if it has
    /// one.
    pub fn advance(&mut self, config: &Config, source: &Source)
        ensures
            final(self)@ == after_source(old(self)@, config.numbering_of(), *source),
    {
        if self.failure.is_some() {
            return ;
        }
        match &source.reading {
            Reading::Unopened { reason } => {
                let text = warning(&source.name, reason);
                proof {
                    lemma_texts_push(self.warnings@, text);
                }
                self.warnings.push(text);
            },
            Reading::Opened { lines, failure } => {
                let mut out = emit(config.numbering(), lines);
                proof {
                    lemma_texts_add(self.lines@, out@);
                }
                self.lines.append(&mut out);
                self.failure = copy_of(failure);
            },
        }
        assert(self@ =~= after_source(old(self)@, config.numbering_of(), *source));
    }

    /// Takes into the report one more line of the source that is being
    /// read, where `numbered` lines of that source carry a number before it,
    /// and gives the count after it. After a failure the report stays as it
    /// is.
    pub fn advance_line(&mut self, config: &Config, numbered: usize, line: &String) -> (next:
        usize)
        requires
            numbered < usize::MAX,
        ensures
            final(self)@ == after_line(
                old(self)@,
                config.numbering_of(),
                numbered as nat,
                line@,
            ),
            next == numbered_after(config.numbering_of(), numbered as nat, line@),
    {
        let blank = line.as_str().is_empty();
        let (text, next) = match config.numbering() {
            Numbering::Plain => (line.clone(), numbered),
            Numbering::All => (numbered_line(numbered + 1, line), numbered + 1),
            Numbering::Nonblank => if blank {
                (String::new(), numbered)
            } else {
                (numbered_line(numbered + 1, line), numbered + 1)
            },
        };
        if self.failure.is_none() {
            proof {
                lemma_texts_push(self.lines@, text);
            }
            self.lines.push(text);
        }
        assert(self@ =~= after_line(old(self)@, config.numbering_of(), numbered as nat, line@));
        next
    }

    /// Takes into the report that reading has failed for `reason`, which
    /// ends the invocation. A failure before it stays.
    pub fn fail(&mut self, reason: String)
        ensures
            final(self)@ == after_failure(old(self)@, reason@),
    {
        if self.failure.is_none() {
            self.failure = Some(reason);
        }
    }

    /// The text of the standard output from the line at `start` on: each of
    /// those lines with a line end after it.
    pub fn text_from(&self, start: usize) -> (out: String)
        ensures
            out@ == terminated(
                self@.lines.skip(
                    if start <= self@.lines.len() {
                        start as int
                    } else {
                        self@.lines.len() as int
                    },
                ),
            ),
    {
        let ghost lines = texts(self.lines@);
        let first = if start <= self.lines.len() {
            start
        } else {
            self.lines.len()
        };
        let ghost rest = lines.skip(first as int);
        let mut out = String::new();
        let mut k: usize = first;
        assert(rest.take(0) =~= Seq::<Seq<char>>::empty());
        while k < self.lines.len()
            invariant
                lines == texts(self.lines@),
                rest == lines.skip(first as int),
                first <= k <= self.lines.len(),
                out@ == terminated(rest.take(k - first)),
            decreases self.lines.len() - k,
        {
            proof {
                assert(rest.take(k - first + 1).drop_last() =~= rest.take(k - first));
                assert(rest.take(k - first + 1).last() == self.lines[k as int]@);
            }
            out.append(self.lines[k].as_str());
            out.append("\n");
            k = k + 1;
        }
        assert(rest.take(k - first) =~= rest);
        out
    }
}

/// Concatenates the sources in order: the lines of each one that was read,
/// numbered as the configuration asks, and a warning for each one that could
/// not be opened. A read failure ends the invocation after the lines read
/// before it; a source that could not be opened does not.
pub fn run(config: &Config, sources: &Vec<Source>) -> (report: Report)
    ensures
        report@ == outcome(config.numbering_of(), sources@),
{
    let ghost numbering = config.numbering_of();
    let mut report = Report::new();
    let mut k: usize = 0;
    assert(sources@.take(0) =~= Seq::<Source>::empty());
    while k < sources.len() && !report.ended()
        invariant
            k <= sources.len(),
            numbering == config.numbering_of(),
            report@ == outcome(numbering, sources@.take(k as int)),
        decreases sources.len() - k,
    {
        proof {
            assert(sources@.take(k + 1).drop_last() =~= sources@.take(k as int));
            assert(sources@.take(k + 1).last() == sources@[k as int]);
        }
        report.advance(config, &sources[k]);
        k = k + 1;
    }
    proof {
        if k < sources.len() {
            lemma_failure_ends(numbering, sources@, k as int);
        } else {
            assert(sources@.take(k as int) =~= sources@);
        }
    }
    report
}

} // verus!
