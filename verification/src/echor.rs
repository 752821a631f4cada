//! The echoer: its words, with one blank between each two, and a line end
//! unless it is told to leave that out.

use crate::cli::{refusal, ArgsError};
use crate::text::{texts, texts_of};
use clap::{Arg, Command};
use vstd::prelude::*;
use vstd::string::*;

verus! {

/// What one invocation of the echoer is asked to do.
#[derive(Debug)]
pub struct Config {
    /// The words to echo, in order.
    pub text: Vec<String>,
    /// Whether the line end after the words is left out.
    pub omit_newline: bool,
}

/// The words with one blank between each two.
pub open spec fn spaced(words: Seq<Seq<char>>) -> Seq<char>
    decreases words.len(),
{
    if words.len() == 0 {
        Seq::empty()
    } else if words.len() == 1 {
        words[0]
    } else {
        spaced(words.drop_last()) + " "@ + words.last()
    }
}

/// What the echoer writes: the words with one blank between each two, then
/// a line end unless it is left out.
pub open spec fn echoed(words: Seq<Seq<char>>, omit_newline: bool) -> Seq<char> {
    spaced(words) + if omit_newline {
        Seq::<char>::empty()
    } else {
        "\n"@
    }
}

/// What the echoer writes for `text`.
pub fn echo(text: &Vec<String>, omit_newline: bool) -> (out: String)
    ensures
        out@ == echoed(texts(text@), omit_newline),
{
    let ghost words = texts(text@);
    let mut out = String::new();
    let mut k: usize = 0;
    assert(words.take(0) =~= Seq::<Seq<char>>::empty());
    while k < text.len()
        invariant
            words == texts(text@),
            k <= text.len(),
            out@ == spaced(words.take(k as int)),
        decreases text.len() - k,
    {
        proof {
            assert(words.take(k + 1).drop_last() =~= words.take(k as int));
            assert(words.take(k + 1).last() == text[k as int]@);
            if k == 0 {
                assert(words.take(1)[0] == text[0]@);
            }
        }
        let ghost before = out@;
        if k > 0 {
            out.append(" ");
        }
        out.append(text[k].as_str());
        assert(out@ =~= spaced(words.take(k + 1))) by {
            if k == 0 {
                assert(before =~= Seq::<char>::empty());
            }
        }
        k = k + 1;
    }
    assert(words.take(k as int) =~= words);
    if !omit_newline {
        out.append("\n");
    } else {
        assert(out@ =~= echoed(words, omit_newline));
    }
    out
}

/// Whether `r` is what the values that the parser found give: the
/// configuration with the words and the flag where there is one word at
/// least, and the error for missing text where there is none.
pub open spec fn configured(
    text: Option<Seq<Seq<char>>>,
    omit_newline: bool,
    r: Result<Config, ArgsError>,
) -> bool {
    match r {
        Ok(config) => text matches Some(words) && words.len() > 0 && texts(config.text@) == words
            && config.omit_newline == omit_newline,
        Err(error) => error is MissingText && !(text matches Some(words) && words.len() > 0),
    }
}

impl Config {
    /// The configuration for what the parser found: the words, of which
    /// there must be one at least, and the flag.
    pub fn new(text: Option<Vec<String>>, omit_newline: bool) -> (r: Result<Config, ArgsError>)
        ensures
            configured(texts_of(text), omit_newline, r),
    {
        match text {
            Some(words) => if words.len() > 0 {
                Ok(Config { text: words, omit_newline })
            } else {
                Err(ArgsError::MissingText)
            },
            None => Err(ArgsError::MissingText),
        }
    }

    /// What the echoer writes for this configuration.
    pub fn run(&self) -> (out: String)
        ensures
            out@ == echoed(texts(self.text@), self.omit_newline),
    {
        echo(&self.text, self.omit_newline)
    }
}

/// What clap finds on the echoer's command line `args`, the program's name
/// first. Where it accepts the command line: the values of `TEXT`, and
/// whether `-n` is there. Where it does not: its message, and whether that
/// belongs on the error stream.
pub uninterp spec fn echor_found(args: Seq<Seq<char>>) -> Result<
    (Option<Seq<Seq<char>>>, bool),
    (Seq<char>, bool),
>;

/// What was found, as sequences of characters.
pub open spec fn found_view(found: Result<(Option<Vec<String>>, bool), (String, bool)>) -> Result<
    (Option<Seq<Seq<char>>>, bool),
    (Seq<char>, bool),
> {
    match found {
        Ok((text, omit_newline)) => Ok((texts_of(text), omit_newline)),
        Err((message, on_error_stream)) => Err((message@, on_error_stream)),
    }
}

/// Parses the command line `args`, the program's name first, with clap's
/// `Command::try_get_matches_from`, on a command with one `TEXT` or more,
/// which must be there, and `-n`. What was found is read with
/// `ArgMatches::values_of` and `ArgMatches::is_present`; an error gives its
/// text and `Error::use_stderr`.
///
/// Trusted. The result is a function of `args` alone, named `echor_found`:
/// built without its optional features, clap reads neither the environment
/// nor the terminal.
#[verifier::external_body]
fn found(args: &Vec<String>) -> (r: Result<(Option<Vec<String>>, bool), (String, bool)>)
    ensures
        found_view(r) == echor_found(texts(args@)),
{
    let text = Arg::new("text").value_name("TEXT").help("Input text").required(true)
        .min_values(1);
    let omit = Arg::new("omit_newline").short('n').help("Do not print newline")
        .takes_value(false);
    let command = Command::new("echor").version("0.1.0").about("Rust echo");
    match command.arg(text).arg(omit).try_get_matches_from(args) {
        Ok(m) => Ok((m.values_of("text").map(|values| values.map(String::from).collect()),
            m.is_present("omit_newline"))),
        Err(error) => Err((error.to_string(), error.use_stderr())),
    }
}

/// Reads the configuration from the command line `args`, the program's name
/// first. Where the parser accepts the command line, the result is what the
/// values that it found give: the words and the flag, or the error for
/// missing text where there is no word. Where it does not, the error carries
/// the parser's message: a refusal, or the help or version that was asked
/// for.
pub fn get_args(args: &Vec<String>) -> (r: Result<Config, ArgsError>)
    ensures
        match echor_found(texts(args@)) {
            Ok((text, omit_newline)) => configured(text, omit_newline, r),
            Err((message, on_error_stream)) => r matches Err(error) && error.is_refusal(
                message,
                on_error_stream,
            ),
        },
        r matches Ok(config) ==> config.text@.len() > 0,
{
    match found(args) {
        Ok((text, omit_newline)) => {
            let r = Config::new(text, omit_newline);
            assert(r matches Ok(config) ==> texts(config.text@).len() > 0);
            r
        },
        Err((message, on_error_stream)) => Err(refusal(message, on_error_stream)),
    }
}

} // verus!
