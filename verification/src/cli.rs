//! The command line: what the options mean and how a size is written.
//!
//! The argument list is searched by `pico_args`. What that crate does to the
//! list is taken on trust and stated in the contracts of the three functions
//! at the head of this file; everything after them is proved from those
//! contracts.

use crate::canvas::Mode;
use crate::text::{cut, find_cut, number, parse_number, squeeze, squeezed};
use vstd::prelude::*;

verus! {

/// `pico_args::Arguments`, the parser: a list of arguments that shrinks as
/// options are taken from it. Nothing is known of a value but what `pending`
/// says.
#[verifier::external_type_specification]
#[verifier::external_body]
pub struct ExArguments(pico_args::Arguments);

/// `pico_args::Error`, what the parser reports. It is handed on unread.
#[verifier::external_type_specification]
#[verifier::external_body]
pub struct ExArgumentsError(pico_args::Error);

/// The arguments that a parser still holds, in order. `None` stands for an
/// argument that is not valid UTF-8.
pub uninterp spec fn pending(arguments: pico_args::Arguments) -> Seq<Option<Seq<char>>>;

/// The list that a parser holds when it is made from `args`.
pub open spec fn texts(args: Seq<String>) -> Seq<Option<Seq<char>>> {
    args.map_values(|arg: String| Some(arg@))
}

/// A key that the parser accepts: a dash and one more character, or two
/// dashes and a name.
pub open spec fn is_key(key: Seq<char>) -> bool {
    &&& key.len() >= 2
    &&& key[0] == '-'
    &&& key.len() == 2 || key[1] == '-'
}

/// The first place at or after `from` where `list` holds `key`; the length of
/// `list` where there is none.
pub open spec fn seek(list: Seq<Option<Seq<char>>>, key: Seq<char>, from: int) -> int
    decreases list.len() - from,
{
    if from >= list.len() {
        list.len() as int
    } else if list[from] == Some(key) {
        from
    } else {
        seek(list, key, from + 1)
    }
}

/// The first place where `list` holds `key`; the length of `list` where there
/// is none.
pub open spec fn position(list: Seq<Option<Seq<char>>>, key: Seq<char>) -> int {
    seek(list, key, 0)
}

/// `list` holds `key`.
pub open spec fn holds(list: Seq<Option<Seq<char>>>, key: Seq<char>) -> bool {
    position(list, key) < list.len()
}

/// `list` without the first `key` in it.
pub open spec fn without(list: Seq<Option<Seq<char>>>, key: Seq<char>) -> Seq<Option<Seq<char>>> {
    if holds(list, key) {
        list.remove(position(list, key))
    } else {
        list
    }
}

/// Calls `pico_args::Arguments::from_vec` on `args`, each turned into an
/// `OsString`. The parser then holds exactly `args`, in order.
#[verifier::external_body]
fn parser_over(args: Vec<String>) -> (parser: pico_args::Arguments)
    ensures
        pending(parser) == texts(args@),
{
    pico_args::Arguments::from_vec(args.into_iter().map(|arg| arg.into()).collect())
}

/// Calls `pico_args::Arguments::contains` with the single key `key`. It
/// reports whether the list holds an argument equal to `key`, and takes the
/// first such argument off the list.
#[verifier::external_body]
fn take_flag(parser: &mut pico_args::Arguments, key: &'static str) -> (found: bool)
    requires
        is_key(key@),
    ensures
        found == holds(pending(*old(parser)), key@),
        pending(*final(parser)) == without(pending(*old(parser)), key@),
{
    parser.contains(key)
}

/// Calls `pico_args::Arguments::opt_value_from_str` for a `String` with the
/// single key `key`. Where the list does not hold `key` it returns `Ok(None)`.
/// Where `key` is the last argument, or the argument after the first `key` is
/// not valid UTF-8, it returns an error. In both cases the list stays as it
/// is. Otherwise it returns the argument after the first `key` and takes both
/// off the list.
#[verifier::external_body]
fn take_value(parser: &mut pico_args::Arguments, key: &'static str) -> (r: Result<
    Option<String>,
    pico_args::Error,
>)
    requires
        is_key(key@),
    ensures
        ({
            let list = pending(*old(parser));
            let at = position(list, key@);
            if at >= list.len() {
                r matches Ok(None) && pending(*final(parser)) == list
            } else if at + 1 >= list.len() || list[at + 1] is None {
                r is Err && pending(*final(parser)) == list
            } else {
                &&& r matches Ok(Some(value)) && Some(value@) == list[at + 1]
                &&& pending(*final(parser)) == list.remove(at).remove(at)
            }
        }),
{
    parser.opt_value_from_str(key)
}

/// The size that `s` spells: white space is dropped, then the text before the
/// first `x` is the width and the text between the first `x` and the second,
/// or the end, is the height. Both must be unsigned numbers. What follows a
/// second `x` is not looked at.
pub open spec fn dimensions(s: Seq<char>) -> Option<(usize, usize)> {
    let text = squeezed(s);
    let first = cut(text, 0);
    if first >= text.len() {
        None
    } else {
        let second = cut(text, first + 1);
        match (number(text.subrange(0, first)), number(text.subrange(first + 1, second))) {
            (Some(width), Some(height)) => Some((width, height)),
            _ => None,
        }
    }
}

/// Reads a size written as `<width>x<height>`.
pub fn parse_dimensions(s: &str) -> (r: Option<(usize, usize)>)
    ensures
        r == dimensions(s@),
{
    let text = squeeze(s);
    let first = find_cut(&text, 0);
    if first >= text.len() {
        return None;
    }
    let second = find_cut(&text, first + 1);
    let width = match parse_number(&text, 0, first) {
        Some(width) => width,
        None => {
            return None;
        },
    };
    let height = match parse_number(&text, first + 1, second) {
        Some(height) => height,
        None => {
            return None;
        },
    };
    Some((width, height))
}

/// What the command line asks for.
#[derive(Clone, Copy, Debug, PartialEq, Eq, Structural)]
pub struct Args {
    /// The number of columns of the plot.
    pub width: usize,
    /// The number of rows of the plot.
    pub height: usize,
    /// How points fill the grid.
    pub mode: Mode,
    /// The x sample of a point is its row number in the input.
    pub x_is_row: bool,
    /// The x samples are plotted by their logarithm to base ten.
    pub log_x: bool,
    /// The y samples are plotted by their logarithm to base ten.
    pub log_y: bool,
    /// The cumulative distribution of the samples is plotted.
    pub cdf: bool,
}

/// Why a command line gives no `Args`.
#[derive(Debug)]
pub enum ArgsError {
    /// The command line asks for the help text and for nothing else.
    HelpRequested,
    /// The text after `-d` does not spell a size.
    InvalidDimensions,
    /// The parser could not take the value of `-d`.
    BadOption(pico_args::Error),
}

/// What a command line comes to.
pub enum Reading {
    /// It asks for the help text.
    Help,
    /// It gives `-d` without a value that can be read.
    NoValue,
    /// It gives `-d` a value that spells no size.
    NoSize,
    /// It asks for a plot.
    Run(Args),
}

/// The size of the plot where the command line gives none.
pub open spec fn default_size() -> Seq<char> {
    "90x25"@
}

/// What the command line `list` comes to.
///
/// `-h` or `--help` anywhere asks for help. Otherwise the argument after the
/// first `-d` is the size, `90x25` where there is no `-d`. The flags are
/// looked for among the other arguments; the value of `-d` is never taken for
/// a flag.
pub open spec fn reading(list: Seq<Option<Seq<char>>>) -> Reading {
    if holds(list, "-h"@) || holds(list, "--help"@) {
        Reading::Help
    } else {
        let at = position(list, "-d"@);
        if at < list.len() && (at + 1 >= list.len() || list[at + 1] is None) {
            Reading::NoValue
        } else {
            let size = if at < list.len() {
                list[at + 1]->0
            } else {
                default_size()
            };
            let rest = if at < list.len() {
                list.remove(at).remove(at)
            } else {
                list
            };
            match dimensions(size) {
                None => Reading::NoSize,
                Some((width, height)) => Reading::Run(
                    Args {
                        width,
                        height,
                        mode: if holds(rest, "--dot"@) {
                            Mode::Dot
                        } else {
                            Mode::Count
                        },
                        x_is_row: !holds(rest, "--no-x-is-row"@),
                        log_x: holds(rest, "--log-x"@),
                        log_y: holds(rest, "--log-y"@),
                        cdf: holds(rest, "--cdf"@),
                    },
                ),
            }
        }
    }
}

/// Where `seek` stops, `list` holds `key`, and nowhere between `from` and
/// that place.
pub proof fn lemma_seek(list: Seq<Option<Seq<char>>>, key: Seq<char>, from: int)
    requires
        0 <= from <= list.len(),
    ensures
        from <= seek(list, key, from) <= list.len(),
        seek(list, key, from) < list.len() ==> list[seek(list, key, from)] == Some(key),
        forall|i: int| from <= i < seek(list, key, from) ==> #[trigger] list[i] != Some(key),
    decreases list.len() - from,
{
    if from < list.len() && list[from] != Some(key) {
        lemma_seek(list, key, from + 1);
    }
}

/// Taking an argument that is not `key` off the list leaves `key` in it or
/// out of it as it was.
pub proof fn lemma_remove_keeps(list: Seq<Option<Seq<char>>>, gone: int, key: Seq<char>)
    requires
        0 <= gone < list.len(),
        list[gone] != Some(key),
    ensures
        holds(list.remove(gone), key) == holds(list, key),
{
    let rest = list.remove(gone);
    let at = position(list, key);
    lemma_seek(list, key, 0);
    lemma_seek(rest, key, 0);
    if at < list.len() {
        let moved = if at < gone {
            at
        } else {
            at - 1
        };
        assert(rest[moved] == Some(key));
    }
    let there = position(rest, key);
    if there < rest.len() {
        let back = if there < gone {
            there
        } else {
            there + 1
        };
        assert(list[back] == Some(key));
    }
}

/// Taking the first `gone` off the list leaves any other key in it or out of
/// it as it was.
pub proof fn lemma_without_keeps(list: Seq<Option<Seq<char>>>, gone: Seq<char>, key: Seq<char>)
    requires
        gone != key,
    ensures
        holds(without(list, gone), key) == holds(list, key),
{
    lemma_seek(list, gone, 0);
    if holds(list, gone) {
        lemma_remove_keeps(list, position(list, gone), key);
    }
}

impl Args {
    /// Reads the command line `args`, the program's name not among them.
    ///
    /// The help text is asked for before anything else is looked at, the size
    /// is read next, and the flags are looked for last.
    pub fn from_env(args: Vec<String>) -> (r: Result<Args, ArgsError>)
        ensures
            match r {
                Ok(parsed) => reading(texts(args@)) == Reading::Run(parsed),
                Err(ArgsError::HelpRequested) => reading(texts(args@)) == Reading::Help,
                Err(ArgsError::InvalidDimensions) => reading(texts(args@)) == Reading::NoSize,
                Err(ArgsError::BadOption(_)) => reading(texts(args@)) == Reading::NoValue,
            },
    {
        let ghost list = texts(args@);
        let mut parser = parser_over(args);
        proof {
            reveal_strlit("-h");
            reveal_strlit("--help");
            reveal_strlit("-d");
            reveal_strlit("--no-x-is-row");
            reveal_strlit("--dot");
            reveal_strlit("--log-x");
            reveal_strlit("--log-y");
            reveal_strlit("--cdf");
        }
        if take_flag(&mut parser, "-h") {
            return Err(ArgsError::HelpRequested);
        }
        if take_flag(&mut parser, "--help") {
            return Err(ArgsError::HelpRequested);
        }
        assert(pending(parser) == list);
        let given = match take_value(&mut parser, "-d") {
            Ok(given) => given,
            Err(fault) => {
                return Err(ArgsError::BadOption(fault));
            },
        };
        let ghost rest = pending(parser);
        let size = match given {
            Some(text) => parse_dimensions(text.as_str()),
            None => parse_dimensions("90x25"),
        };
        let (width, height) = match size {
            Some(size) => size,
            None => {
                return Err(ArgsError::InvalidDimensions);
            },
        };
        let x_is_row = !take_flag(&mut parser, "--no-x-is-row");
        let ghost after_row = pending(parser);
        let dot = take_flag(&mut parser, "--dot");
        let ghost after_dot = pending(parser);
        let log_x = take_flag(&mut parser, "--log-x");
        let ghost after_log_x = pending(parser);
        let log_y = take_flag(&mut parser, "--log-y");
        let ghost after_log_y = pending(parser);
        let cdf = take_flag(&mut parser, "--cdf");
        proof {
            assert("--dot"@[2] != "--cdf"@[2]);
            assert("--log-x"@[6] != "--log-y"@[6]);
            lemma_without_keeps(rest, "--no-x-is-row"@, "--dot"@);
            lemma_without_keeps(rest, "--no-x-is-row"@, "--log-x"@);
            lemma_without_keeps(rest, "--no-x-is-row"@, "--log-y"@);
            lemma_without_keeps(rest, "--no-x-is-row"@, "--cdf"@);
            lemma_without_keeps(after_row, "--dot"@, "--log-x"@);
            lemma_without_keeps(after_row, "--dot"@, "--log-y"@);
            lemma_without_keeps(after_row, "--dot"@, "--cdf"@);
            lemma_without_keeps(after_dot, "--log-x"@, "--log-y"@);
            lemma_without_keeps(after_dot, "--log-x"@, "--cdf"@);
            lemma_without_keeps(after_log_x, "--log-y"@, "--cdf"@);
        }
        Ok(
            Args {
                width,
                height,
                mode: if dot {
                    Mode::Dot
                } else {
                    Mode::Count
                },
                x_is_row,
                log_x,
                log_y,
                cdf,
            },
        )
    }
}

} // verus!
