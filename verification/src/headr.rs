//! The truncator: the first lines, or the first bytes, of every source.

use crate::cli::{exit_status, first, first_of, refusal, status_after, ArgsError};
use crate::decimal::{machine_numeral, parse_usize};
use crate::decoding::{decode_lossy, decode_strict, lossy_text};
use crate::source::standard_input;
use crate::text::{copy_of, lemma_texts_push, text_of, texts, texts_of};
use clap::{Arg, Command};
use vstd::prelude::*;
use vstd::string::*;
use vstd::utf8::{decode_utf8, decode_utf8_encode_utf8, encode_utf8, valid_utf8};

verus! {

/// The number of lines kept where the command line gives none.
pub const DEFAULT_LINES: usize = 10;

/// What one invocation of the truncator is asked to do.
#[derive(Debug)]
pub struct Config {
    /// The names of the sources, in order; `-` is the standard input.
    pub files: Vec<String>,
    /// How many lines of each source are kept, where no byte count is given.
    pub lines: usize,
    /// How many bytes of each source are kept; where present, lines are not
    /// counted.
    pub bytes: Option<usize>,
}

/// How much of each source is kept.
#[derive(Clone, Copy, Debug)]
pub enum Limit {
    /// The first lines, this many.
    Lines(usize),
    /// The first bytes, this many.
    Bytes(usize),
}

/// What a text is worth as a count: its worth as a `usize`, where that is
/// above zero.
pub open spec fn positive_integer(s: Seq<char>) -> Option<usize> {
    match machine_numeral(s) {
        Some(n) => if n > 0 {
            Some(n)
        } else {
            None
        },
        None => None,
    }
}

/// Reads `value` as a count. A text that is no decimal numeral, zero, and a
/// number too large for the machine are refused, and the error is the text
/// itself.
pub fn parse_positive_int(value: &str) -> (r: Result<usize, String>)
    ensures
        match r {
            Ok(n) => positive_integer(value@) == Some(n),
            Err(refused) => positive_integer(value@) is None && refused@ == value@,
        },
{
    match parse_usize(value) {
        Some(n) => if n > 0 {
            Ok(n)
        } else {
            Err(String::from_str(value))
        },
        None => Err(String::from_str(value)),
    }
}

/// Whether `r` is what the values that the parser found give: the
/// configuration for them, or the count that is refused. The sources are
/// those named, or the standard input alone where none is. The line count is
/// `DEFAULT_LINES` where none is given. A line count that is no positive
/// integer is refused first, then such a byte count; the error carries the
/// text that was refused.
pub open spec fn configured(
    files: Option<Seq<Seq<char>>>,
    lines: Option<Seq<char>>,
    bytes: Option<Seq<char>>,
    r: Result<Config, ArgsError>,
) -> bool {
    match r {
        Ok(config) => {
            &&& config.wf()
            &&& texts(config.files@) == match files {
                Some(names) if names.len() > 0 => names,
                _ => seq![standard_input()],
            }
            &&& match lines {
                Some(text) => positive_integer(text) == Some(config.lines),
                None => config.lines == DEFAULT_LINES,
            }
            &&& match bytes {
                Some(text) => positive_integer(text) is Some && config.bytes == positive_integer(
                    text,
                ),
                None => config.bytes is None,
            }
        },
        Err(ArgsError::LineCount(refused)) => lines matches Some(text) && refused@ == text
            && positive_integer(text) is None,
        Err(ArgsError::ByteCount(refused)) => {
            &&& lines matches Some(text) ==> positive_integer(text) is Some
            &&& bytes matches Some(text) && refused@ == text && positive_integer(text) is None
        },
        Err(_) => false,
    }
}

impl Config {
    /// Whether the counts are positive and a source is named.
    pub open spec fn wf(&self) -> bool {
        &&& self.files@.len() > 0
        &&& self.lines > 0
        &&& self.bytes matches Some(n) ==> n > 0
    }

    /// How much of each source is kept: the byte count where there is one,
    /// else the line count.
    pub open spec fn limit_of(&self) -> Limit {
        match self.bytes {
            Some(n) => Limit::Bytes(n),
            None => Limit::Lines(self.lines),
        }
    }

    /// How much of each source is kept.
    pub fn limit(&self) -> (r: Limit)
        ensures
            r == self.limit_of(),
    {
        match self.bytes {
            Some(n) => Limit::Bytes(n),
            None => Limit::Lines(self.lines),
        }
    }

    /// The configuration for what the parser found. The sources are those
    /// named, or the standard input alone where none is. The line count is
    /// `DEFAULT_LINES` where none is given. A line count that is no positive
    /// integer is refused first, then such a byte count.
    pub fn new(files: Option<Vec<String>>, lines: Option<String>, bytes: Option<String>) -> (r:
        Result<Config, ArgsError>)
        ensures
            configured(texts_of(files), text_of(lines), text_of(bytes), r),
    {
        let files = match files {
            Some(names) if names.len() > 0 => names,
            _ => {
                let mut names: Vec<String> = Vec::new();
                names.push(String::from_str("-"));
                assert(texts(names@) =~= seq![standard_input()]);
                names
            },
        };
        let lines = match lines {
            Some(text) => match parse_positive_int(text.as_str()) {
                Ok(n) => n,
                Err(refused) => {
                    return Err(ArgsError::LineCount(refused));
                },
            },
            None => DEFAULT_LINES,
        };
        let bytes = match bytes {
            Some(text) => match parse_positive_int(text.as_str()) {
                Ok(n) => Some(n),
                Err(refused) => {
                    return Err(ArgsError::ByteCount(refused));
                },
            },
            None => None,
        };
        assert(texts(files@).len() > 0);
        Ok(Config { files, lines, bytes })
    }
}

/// What clap finds on the truncator's command line `args`, the program's
/// name first. Where it accepts the command line: the values of `FILE`, of
/// `-n`/`--lines` and of `-c`/`--bytes`. Where it does not: its message, and
/// whether that belongs on the error stream.
pub uninterp spec fn headr_found(args: Seq<Seq<char>>) -> Result<
    (Option<Seq<Seq<char>>>, Option<Seq<Seq<char>>>, Option<Seq<Seq<char>>>),
    (Seq<char>, bool),
>;

/// What was found, as sequences of characters.
pub open spec fn found_view(
    found: Result<(Option<Vec<String>>, Option<Vec<String>>, Option<Vec<String>>), (String, bool)>,
) -> Result<
    (Option<Seq<Seq<char>>>, Option<Seq<Seq<char>>>, Option<Seq<Seq<char>>>),
    (Seq<char>, bool),
> {
    match found {
        Ok((files, lines, bytes)) => Ok((texts_of(files), texts_of(lines), texts_of(bytes))),
        Err((message, on_error_stream)) => Err((message@, on_error_stream)),
    }
}

/// Parses the command line `args`, the program's name first, with clap's
/// `Command::try_get_matches_from`, on a command with any number of `FILE`
/// names (`-` by default), `-n`/`--lines` with a value (`10` by default), and
/// `-c`/`--bytes` with a value, which conflicts with `-n`. Bytes that are no
/// UTF-8 are allowed in all three, and a count may start with a hyphen. What
/// was found is read with `ArgMatches::values_of_lossy`; an error gives its
/// text and `Error::use_stderr`.
///
/// Trusted. The result is a function of `args` alone, named `headr_found`:
/// built without its optional features, clap reads neither the environment
/// nor the terminal.
#[verifier::external_body]
fn found(args: &Vec<String>) -> (r: Result<
    (Option<Vec<String>>, Option<Vec<String>>, Option<Vec<String>>),
    (String, bool),
>)
    ensures
        found_view(r) == headr_found(texts(args@)),
{
    match Command::new("headr").version("0.1.0").about("Rust head")
        .arg(Arg::new("files").value_name("FILE").help("display first lines of a file")
            .multiple_values(true).default_value("-").hide_default_value(true)
            .allow_invalid_utf8(true))
        .arg(Arg::new("lines").value_name("LINES").short('n').long("lines").takes_value(true)
            .help("print the K lines instead of the first 10").default_value("10")
            .allow_invalid_utf8(true).allow_hyphen_values(true))
        .arg(Arg::new("bytes").value_name("BYTES").short('c').long("bytes").takes_value(true)
            .help("print the first K bytes of each file").conflicts_with("lines")
            .allow_invalid_utf8(true).allow_hyphen_values(true))
        .try_get_matches_from(args) {
        Ok(m) => Ok((m.values_of_lossy("files"), m.values_of_lossy("lines"),
            m.values_of_lossy("bytes"))),
        Err(e) => Err((e.to_string(), e.use_stderr())),
    }
}

/// Reads the configuration from the command line `args`, the program's name
/// first. Where the parser accepts the command line, the result is what the
/// values that it found give: the sources, the first value of the line count
/// and the first value of the byte count, as `configured` says. Where it does
/// not, the error carries the parser's message: a refusal, or the help or
/// version that was asked for.
pub fn get_args(args: &Vec<String>) -> (r: Result<Config, ArgsError>)
    ensures
        match headr_found(texts(args@)) {
            Ok((files, lines, bytes)) => configured(files, first(lines), first(bytes), r),
            Err((message, on_error_stream)) => r matches Err(error) && error.is_refusal(
                message,
                on_error_stream,
            ),
        },
        r matches Ok(config) ==> config.wf(),
{
    match found(args) {
        Ok((files, lines, bytes)) => Config::new(files, first_of(lines), first_of(bytes)),
        Err((message, on_error_stream)) => Err(refusal(message, on_error_stream)),
    }
}

/// The chunks of a source, each as the sequence of its bytes.
pub open spec fn blocks(chunks: Seq<Vec<u8>>) -> Seq<Seq<u8>> {
    Seq::new(chunks.len(), |i: int| chunks[i]@)
}

/// The bytes of the chunks, one chunk after the other.
pub open spec fn joined(chunks: Seq<Seq<u8>>) -> Seq<u8>
    decreases chunks.len(),
{
    if chunks.len() == 0 {
        Seq::empty()
    } else {
        joined(chunks.drop_last()) + chunks.last()
    }
}

/// The texts that the lines encode, one after the other.
pub open spec fn decoded(lines: Seq<Seq<u8>>) -> Seq<char>
    decreases lines.len(),
{
    if lines.len() == 0 {
        Seq::empty()
    } else {
        decoded(lines.drop_last()) + decode_utf8(lines.last())
    }
}

/// How many of the first `k` lines come before the first one among them
/// that is no valid UTF-8: `k` itself where all of them are valid.
pub open spec fn readable(lines: Seq<Seq<u8>>, k: int) -> int
    decreases k,
{
    if k <= 0 {
        0
    } else if readable(lines, k - 1) == k - 1 && valid_utf8(lines[k - 1]) {
        k
    } else {
        readable(lines, k - 1)
    }
}

/// The first `n` items of `s`, or all of `s` where it has fewer.
pub open spec fn front<T>(s: Seq<T>, n: int) -> Seq<T> {
    if 0 <= n < s.len() {
        s.take(n)
    } else {
        s
    }
}

/// The failure of a line that is no valid UTF-8.
pub open spec fn invalid_line() -> Seq<char> {
    "stream did not contain valid UTF-8"@
}

/// What is kept of one source: the text for the standard output, and the
/// failure that ends the invocation, if any.
pub struct Block {
    /// The text that is kept.
    pub text: String,
    /// The failure that was met before the limit was reached, if any.
    pub failure: Option<String>,
}

/// A block as sequences of characters.
pub ghost struct Piece {
    /// The text that is kept.
    pub text: Seq<char>,
    /// The failure that was met before the limit was reached, if any.
    pub failure: Option<Seq<char>>,
}

impl View for Block {
    type V = Piece;

    open spec fn view(&self) -> Piece {
        Piece { text: self.text@, failure: text_of(self.failure) }
    }
}

/// The first `n` lines of a source that gave `lines` and then, where
/// `failure` is present, failed. The lines are kept as they are, line ends
/// included, up to the first one that is no valid UTF-8, which is a failure.
/// The source's own failure counts only where the source gave fewer than `n`
/// lines.
pub open spec fn first_lines(lines: Seq<Seq<u8>>, n: int, failure: Option<Seq<char>>) -> Piece {
    let wanted = front(lines, n).len() as int;
    let good = readable(lines, wanted);
    Piece {
        text: decoded(lines.take(good)),
        failure: if good < wanted {
            Some(invalid_line())
        } else if lines.len() < n {
            failure
        } else {
            None
        },
    }
}

/// The first `n` bytes of a source that gave `chunks` and then, where
/// `failure` is present, failed. The bytes are decoded leniently. The
/// source's own failure counts only where the source gave fewer than `n`
/// bytes.
pub open spec fn first_bytes(chunks: Seq<Seq<u8>>, n: int, failure: Option<Seq<char>>) -> Piece {
    Piece {
        text: lossy_text(front(joined(chunks), n)),
        failure: if joined(chunks).len() < n {
            failure
        } else {
            None
        },
    }
}

/// What the limit keeps of a source.
pub open spec fn kept(limit: Limit, chunks: Seq<Seq<u8>>, failure: Option<Seq<char>>) -> Piece {
    match limit {
        Limit::Lines(n) => first_lines(chunks, n as int, failure),
        Limit::Bytes(n) => first_bytes(chunks, n as int, failure),
    }
}

/// Taking one chunk more appends that chunk's bytes.
proof fn lemma_joined_step(chunks: Seq<Seq<u8>>, i: int)
    requires
        0 <= i < chunks.len(),
    ensures
        joined(chunks.take(i + 1)) == joined(chunks.take(i)) + chunks[i],
{
    assert(chunks.take(i + 1).drop_last() =~= chunks.take(i));
}

/// The bytes of the first chunks are the first bytes of all the chunks.
proof fn lemma_joined_front(chunks: Seq<Seq<u8>>, i: int)
    requires
        0 <= i <= chunks.len(),
    ensures
        joined(chunks.take(i)).len() <= joined(chunks).len(),
        joined(chunks).take(joined(chunks.take(i)).len() as int) == joined(chunks.take(i)),
    decreases chunks.len() - i,
{
    if i == chunks.len() {
        assert(chunks.take(i) =~= chunks);
        assert(joined(chunks).take(joined(chunks).len() as int) =~= joined(chunks));
    } else {
        lemma_joined_step(chunks, i);
        lemma_joined_front(chunks, i + 1);
        let short = joined(chunks.take(i));
        let long = joined(chunks.take(i + 1));
        assert(joined(chunks).take(short.len() as int) =~= long.take(short.len() as int));
        assert(long.take(short.len() as int) =~= short);
    }
}

/// After a line that is no valid UTF-8 no further line is readable.
proof fn lemma_unreadable_stays(lines: Seq<Seq<u8>>, k: int, m: int)
    requires
        0 <= k < m <= lines.len(),
        readable(lines, k) == k,
        !valid_utf8(lines[k]),
    ensures
        readable(lines, m) == k,
    decreases m - k,
{
    if m > k + 1 {
        lemma_unreadable_stays(lines, k, m - 1);
    }
}

/// The bytes of two texts, one after the other, encode the joined text.
proof fn lemma_encode_add(a: Seq<char>, b: Seq<char>)
    ensures
        encode_utf8(a + b) == encode_utf8(a) + encode_utf8(b),
    decreases a.len(),
{
    if a.len() == 0 {
        assert(a + b =~= b);
        assert(encode_utf8(a) + encode_utf8(b) =~= encode_utf8(b));
    } else {
        assert((a + b)[0] == a[0]);
        assert((a + b).drop_first() =~= a.drop_first() + b);
        lemma_encode_add(a.drop_first(), b);
        assert(encode_utf8(a + b) =~= encode_utf8(a) + encode_utf8(b));
    }
}

/// Where the first `k` lines are valid UTF-8, all of them are readable.
pub proof fn lemma_valid_lines_are_readable(lines: Seq<Seq<u8>>, k: int)
    requires
        0 <= k <= lines.len(),
        forall|i: int| 0 <= i < k ==> valid_utf8(#[trigger] lines[i]),
    ensures
        readable(lines, k) == k,
    decreases k,
{
    if k > 0 {
        lemma_valid_lines_are_readable(lines, k - 1);
    }
}

/// Lines that are valid UTF-8 are decoded verbatim: the text encodes their
/// bytes, one line after the other.
pub proof fn lemma_decoded_is_verbatim(lines: Seq<Seq<u8>>)
    requires
        forall|i: int| 0 <= i < lines.len() ==> valid_utf8(#[trigger] lines[i]),
    ensures
        encode_utf8(decoded(lines)) == joined(lines),
    decreases lines.len(),
{
    if lines.len() > 0 {
        let front = lines.drop_last();
        assert forall|i: int| 0 <= i < front.len() implies valid_utf8(#[trigger] front[i]) by {
            assert(front[i] == lines[i]);
        }
        lemma_decoded_is_verbatim(front);
        assert(valid_utf8(lines[lines.len() - 1]));
        decode_utf8_encode_utf8(lines.last());
        lemma_encode_add(decoded(front), decode_utf8(lines.last()));
    }
}

/// Of `m` lines that are valid UTF-8, a limit of `n` lines keeps the first
/// `n`, or all where `m < n`, verbatim: the text encodes exactly the bytes
/// of those lines. Fewer lines than the limit are no failure of their own.
pub proof fn lemma_first_lines(lines: Seq<Seq<u8>>, n: nat, failure: Option<Seq<char>>)
    requires
        forall|i: int| 0 <= i < lines.len() ==> valid_utf8(#[trigger] lines[i]),
    ensures
        front(lines, n as int).len() == if n < lines.len() {
            n
        } else {
            lines.len()
        },
        forall|i: int| 0 <= i < front(lines, n as int).len() ==> front(lines, n as int)[i] == lines[i],
        first_lines(lines, n as int, failure).text == decoded(front(lines, n as int)),
        encode_utf8(first_lines(lines, n as int, failure).text) == joined(front(lines, n as int)),
        first_lines(lines, n as int, failure).failure == if lines.len() < n {
            failure
        } else {
            None
        },
{
    let keep = front(lines, n as int);
    lemma_valid_lines_are_readable(lines, keep.len() as int);
    assert(lines.take(keep.len() as int) =~= keep);
    lemma_decoded_is_verbatim(keep);
}

/// Of `b` bytes, a limit of `n` bytes keeps the first `n`, or all where
/// `b < n`, and the text is their lenient decoding. Fewer bytes than the
/// limit are no failure of their own.
pub proof fn lemma_first_bytes(chunks: Seq<Seq<u8>>, n: nat, failure: Option<Seq<char>>)
    ensures
        front(joined(chunks), n as int).len() == if n < joined(chunks).len() {
            n
        } else {
            joined(chunks).len()
        },
        forall|i: int|
            0 <= i < front(joined(chunks), n as int).len() ==> front(joined(chunks), n as int)[i]
                == joined(chunks)[i],
        first_bytes(chunks, n as int, failure).text == lossy_text(
            front(joined(chunks), n as int),
        ),
        first_bytes(chunks, n as int, failure).failure == if joined(chunks).len() < n {
            failure
        } else {
            None
        },
{
}

/// Keeps the first `lines` lines of a source that gave `chunks`, one line
/// each, and then, where `failure` is present, failed.
pub fn process_lines(chunks: &Vec<Vec<u8>>, lines: usize, failure: &Option<String>) -> (block:
    Block)
    ensures
        block@ == first_lines(blocks(chunks@), lines as int, text_of(*failure)),
{
    let ghost all = blocks(chunks@);
    let wanted = if lines < chunks.len() {
        lines
    } else {
        chunks.len()
    };
    let mut text = String::new();
    let mut k: usize = 0;
    let mut refused = false;
    assert(all.take(0) =~= Seq::<Seq<u8>>::empty());
    while k < wanted && !refused
        invariant
            all == blocks(chunks@),
            k <= wanted <= chunks.len(),
            readable(all, k as int) == k,
            text@ == decoded(all.take(k as int)),
            refused ==> k < wanted && !valid_utf8(all[k as int]),
        decreases wanted - k + if refused { 0int } else { 1int },
    {
        match decode_strict(&chunks[k]) {
            Some(line) => {
                proof {
                    assert(all.take(k + 1).drop_last() =~= all.take(k as int));
                    assert(all.take(k + 1).last() == chunks[k as int]@);
                }
                text.append(line.as_str());
                k = k + 1;
            },
            None => {
                refused = true;
            },
        }
    }
    if refused {
        proof {
            lemma_unreadable_stays(all, k as int, wanted as int);
        }
        Block { text, failure: Some(String::from_str("stream did not contain valid UTF-8")) }
    } else if chunks.len() < lines {
        Block { text, failure: copy_of(failure) }
    } else {
        Block { text, failure: None }
    }
}

/// Keeps the first `bytes` bytes of a source that gave `chunks` and then,
/// where `failure` is present, failed.
pub fn process_bytes(chunks: &Vec<Vec<u8>>, bytes: usize, failure: &Option<String>) -> (block:
    Block)
    ensures
        block@ == first_bytes(blocks(chunks@), bytes as int, text_of(*failure)),
        valid_utf8(front(joined(blocks(chunks@)), bytes as int)) ==> block.text@ == decode_utf8(
            front(joined(blocks(chunks@)), bytes as int),
        ),
{
    let ghost all = blocks(chunks@);
    let mut taken: Vec<u8> = Vec::new();
    let mut i: usize = 0;
    assert(all.take(0) =~= Seq::<Seq<u8>>::empty());
    while i < chunks.len() && taken.len() < bytes
        invariant
            all == blocks(chunks@),
            i <= chunks.len(),
            taken@ == front(joined(all.take(i as int)), bytes as int),
        decreases chunks.len() - i,
    {
        let chunk = &chunks[i];
        let ghost before = joined(all.take(i as int));
        let mut j: usize = 0;
        assert(before + chunk@.take(0) =~= before);
        while j < chunk.len() && taken.len() < bytes
            invariant
                j <= chunk.len(),
                taken@ == front(before + chunk@.take(j as int), bytes as int),
            decreases chunk.len() - j,
        {
            assert(before + chunk@.take(j + 1) =~= (before + chunk@.take(j as int)).push(
                chunk@[j as int],
            ));
            taken.push(chunk[j]);
            j = j + 1;
        }
        proof {
            lemma_joined_step(all, i as int);
            assert(chunk@.take(chunk@.len() as int) =~= chunk@);
            assert(taken@ =~= front(before + chunk@, bytes as int));
        }
        i = i + 1;
    }
    proof {
        lemma_joined_front(all, i as int);
        let short = joined(all.take(i as int));
        if i == chunks.len() {
            assert(all.take(i as int) =~= all);
        } else {
            assert(short.len() >= bytes);
            assert(joined(all).take(short.len() as int).take(bytes as int) =~= joined(all).take(
                bytes as int,
            ));
            assert(short.take(bytes as int) =~= front(short, bytes as int));
        }
        assert(taken@ =~= front(joined(all), bytes as int));
    }
    let text = decode_lossy(&taken);
    if taken.len() < bytes {
        Block { text, failure: copy_of(failure) }
    } else {
        Block { text, failure: None }
    }
}

/// What reading a source gave.
pub enum Reading {
    /// The source could not be opened.
    Unopened {
        /// Why it could not be opened.
        reason: String,
    },
    /// The source was opened and read.
    Opened {
        /// What was read, in order: one chunk for each line, line end
        /// included, where lines are counted; chunks of any size where bytes
        /// are.
        chunks: Vec<Vec<u8>>,
        /// Why reading stopped before the end of the source, if it did.
        failure: Option<String>,
    },
}

/// One source, and what reading it gave.
pub struct Source {
    /// The name of the source.
    pub name: String,
    /// What reading it gave.
    pub reading: Reading,
}

/// What an invocation leaves behind: the text for the standard output, the
/// warnings for the error stream, and the failure that ended it, if any.
pub struct Report {
    /// The text of the standard output.
    pub text: String,
    /// The warnings, one for each source that could not be opened.
    pub warnings: Vec<String>,
    /// The failure that ended the invocation, if any.
    pub failure: Option<String>,
}

/// A report as sequences of characters.
pub ghost struct Outcome {
    /// The text of the standard output.
    pub text: Seq<char>,
    /// The warnings.
    pub warnings: Seq<Seq<char>>,
    /// The failure that ended the invocation, if any.
    pub failure: Option<Seq<char>>,
}

impl View for Report {
    type V = Outcome;

    open spec fn view(&self) -> Outcome {
        Outcome {
            text: self.text@,
            warnings: texts(self.warnings@),
            failure: text_of(self.failure),
        }
    }
}

impl Report {
    /// The exit status of the invocation: 1 after a failure, else 0,
    /// whatever could not be opened.
    pub fn exit_status(&self) -> (r: u8)
        ensures
            r == status_after(self@.failure),
    {
        exit_status(&self.failure)
    }
}

/// The header of the source `name`, the one at `index`, where the
/// configuration names `count` sources: nothing where it names one only; else a line `==> name <==`, and
/// before it an empty line unless the source is the first.
pub open spec fn header(name: Seq<char>, index: int, count: int) -> Seq<char> {
    if count > 1 {
        (if index > 0 {
            "\n"@
        } else {
            Seq::<char>::empty()
        }) + "==> "@ + name + " <==\n"@
    } else {
        Seq::empty()
    }
}

/// The warning for a source that could not be opened.
pub open spec fn open_warning(name: Seq<char>, reason: Seq<char>) -> Seq<char> {
    name + ": "@ + reason
}

/// The outcome after one more source, the one at `index`, where the
/// configuration names `count` sources. After a
/// failure nothing is added. A source that could not be opened adds a
/// warning and nothing else. A source that was read adds its header and what
/// the limit keeps of it.
pub open spec fn after_source(
    before: Outcome,
    limit: Limit,
    source: Source,
    index: int,
    count: int,
) -> Outcome {
    if before.failure is Some {
        before
    } else {
        match source.reading {
            Reading::Unopened { reason } => Outcome {
                text: before.text,
                warnings: before.warnings.push(open_warning(source.name@, reason@)),
                failure: None,
            },
            Reading::Opened { chunks, failure } => {
                let piece = kept(limit, blocks(chunks@), text_of(failure));
                Outcome {
                    text: before.text + header(source.name@, index, count) + piece.text,
                    warnings: before.warnings,
                    failure: piece.failure,
                }
            },
        }
    }
}

/// The outcome of an invocation that has seen no source yet.
pub open spec fn nothing() -> Outcome {
    Outcome { text: Seq::empty(), warnings: Seq::empty(), failure: None }
}

/// The outcome of the first `k` sources, taken in order, where the
/// configuration names `count` sources.
pub open spec fn outcome_of_first(limit: Limit, count: int, sources: Seq<Source>, k: int) -> Outcome
    decreases k,
{
    if k <= 0 {
        nothing()
    } else {
        after_source(
            outcome_of_first(limit, count, sources, k - 1),
            limit,
            sources[k - 1],
            k - 1,
            count,
        )
    }
}

/// The outcome of all the sources, taken in order, where the configuration
/// names `count` sources.
pub open spec fn outcome(limit: Limit, count: int, sources: Seq<Source>) -> Outcome {
    outcome_of_first(limit, count, sources, sources.len() as int)
}

/// A failure ends the invocation: the sources after it change nothing.
pub proof fn lemma_failure_ends(limit: Limit, count: int, sources: Seq<Source>, k: int, m: int)
    requires
        0 <= k <= m,
        outcome_of_first(limit, count, sources, k).failure is Some,
    ensures
        outcome_of_first(limit, count, sources, m) == outcome_of_first(limit, count, sources, k),
    decreases m - k,
{
    if m > k {
        lemma_failure_ends(limit, count, sources, k, m - 1);
    }
}

/// With two sources that were read, the first without failure, the output is
/// the first header with nothing before it, what is kept of the first
/// source, one empty line, the second header, and what is kept of the second
/// source.
pub proof fn lemma_two_sources(limit: Limit, first: Source, second: Source)
    requires
        first.reading is Opened,
        second.reading is Opened,
        kept(
            limit,
            blocks(first.reading->Opened_chunks@),
            text_of(first.reading->Opened_failure),
        ).failure is None,
    ensures
        outcome(limit, 2, seq![first, second]).text == "==> "@ + first.name@ + " <==\n"@ + kept(
            limit,
            blocks(first.reading->Opened_chunks@),
            text_of(first.reading->Opened_failure),
        ).text + "\n"@ + "==> "@ + second.name@ + " <==\n"@ + kept(
            limit,
            blocks(second.reading->Opened_chunks@),
            text_of(second.reading->Opened_failure),
        ).text,
        outcome(limit, 2, seq![first, second]).warnings.len() == 0,
{
    let sources = seq![first, second];
    reveal_with_fuel(outcome_of_first, 3);
    let one = outcome_of_first(limit, 2, sources, 1);
    let two = outcome_of_first(limit, 2, sources, 2);
    assert(one.text =~= "==> "@ + first.name@ + " <==\n"@ + kept(
        limit,
        blocks(first.reading->Opened_chunks@),
        text_of(first.reading->Opened_failure),
    ).text);
    assert(two.text =~= one.text + header(second.name@, 1, 2) + kept(
        limit,
        blocks(second.reading->Opened_chunks@),
        text_of(second.reading->Opened_failure),
    ).text);
    assert(header(second.name@, 1, 2) =~= "\n"@ + "==> "@ + second.name@ + " <==\n"@);
    assert(two.text =~= "==> "@ + first.name@ + " <==\n"@ + kept(
        limit,
        blocks(first.reading->Opened_chunks@),
        text_of(first.reading->Opened_failure),
    ).text + "\n"@ + "==> "@ + second.name@ + " <==\n"@ + kept(
        limit,
        blocks(second.reading->Opened_chunks@),
        text_of(second.reading->Opened_failure),
    ).text);
}

/// What the limit keeps of a source that gave `chunks` and then, where
/// `failure` is present, failed.
pub fn keep(limit: Limit, chunks: &Vec<Vec<u8>>, failure: &Option<String>) -> (block: Block)
    ensures
        block@ == kept(limit, blocks(chunks@), text_of(*failure)),
{
    match limit {
        Limit::Lines(n) => process_lines(chunks, n, failure),
        Limit::Bytes(n) => process_bytes(chunks, n, failure),
    }
}

/// Appends to `text` the header of the source `name`, the one at `index`,
/// where the configuration names `count` sources.
pub fn append_header(text: &mut String, name: &String, index: usize, count: usize)
    ensures
        final(text)@ == old(text)@ + header(name@, index as int, count as int),
{
    if count > 1 {
        if index > 0 {
            text.append("\n");
        }
        text.append("==> ");
        text.append(name.as_str());
        text.append(" <==\n");
        assert(text@ =~= old(text)@ + header(name@, index as int, count as int));
    } else {
        assert(text@ =~= old(text)@ + header(name@, index as int, count as int));
    }
}

/// The warning for a source that could not be opened.
pub fn warning(name: &String, reason: &String) -> (text: String)
    ensures
        text@ == open_warning(name@, reason@),
{
    let mut text = name.clone();
    text.append(": ");
    text.append(reason.as_str());
    text
}

impl Report {
    /// The report of an invocation that has seen no source yet.
    pub fn new() -> (report: Report)
        ensures
            report@ == nothing(),
    {
        let report = Report { text: String::new(), warnings: Vec::new(), failure: None };
        assert(report@.warnings =~= Seq::<Seq<char>>::empty());
        report
    }

    /// Whether a failure has ended the invocation, so that no further source
    /// changes the report.
    pub fn ended(&self) -> (r: bool)
        ensures
            r == self@.failure is Some,
    {
        self.failure.is_some()
    }

    /// Takes one more source into the report, the one at `index` among those
    /// that the configuration names: after a failure nothing; for a source
    /// that could not be opened a warning; for one that was read its header,
    /// where the configuration names several sources, and what the limit
    /// keeps of it.
    pub fn advance(&mut self, config: &Config, index: usize, source: &Source)
        ensures
            final(self)@ == after_source(
                old(self)@,
                config.limit_of(),
                *source,
                index as int,
                config.files@.len() as int,
            ),
    {
        if self.failure.is_some() {
            return ;
        }
        match &source.reading {
            Reading::Unopened { reason } => {
                let text = warning(&source.name, reason);
                proof {
                    lemma_texts_push(self.warnings@, text);
                }
                self.warnings.push(text);
            },
            Reading::Opened { chunks, failure } => {
                let block = keep(config.limit(), chunks, failure);
                append_header(&mut self.text, &source.name, index, config.files.len());
                self.text.append(block.text.as_str());
                self.failure = block.failure;
            },
        }
        assert(self@ =~= after_source(
            old(self)@,
            config.limit_of(),
            *source,
            index as int,
            config.files@.len() as int,
        ));
    }
}

/// Truncates the sources in order: for each one that was read, its header
/// where the configuration names several sources, then its first lines or
/// bytes as the configuration asks; for each one that could not be opened, a
/// warning. A failure ends the invocation after what was kept before it; a
/// source that could not be opened does not.
pub fn run(config: &Config, sources: &Vec<Source>) -> (report: Report)
    ensures
        report@ == outcome(config.limit_of(), config.files@.len() as int, sources@),
{
    let ghost limit = config.limit_of();
    let ghost count = config.files@.len() as int;
    let mut report = Report::new();
    let mut k: usize = 0;
    while k < sources.len() && !report.ended()
        invariant
            k <= sources.len(),
            limit == config.limit_of(),
            count == config.files@.len(),
            report@ == outcome_of_first(limit, count, sources@, k as int),
        decreases sources.len() - k,
    {
        report.advance(config, k, &sources[k]);
        k = k + 1;
    }
    proof {
        if k < sources.len() {
            lemma_failure_ends(limit, count, sources@, k as int, sources@.len() as int);
        }
    }
    report
}

} // verus!
