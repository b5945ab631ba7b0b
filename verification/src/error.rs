//! Error reporting and printing.
//!
//! Errors are collected in a log that the caller owns, each marked `!! `.
use vstd::prelude::*;
use vstd::string::*;
use crate::lexer::msgs;

verus! {

/// How an error is written in the log.
pub open spec fn error_line(m: Seq<char>) -> Seq<char> {
    "!! "@ + m
}

/// The log lines of a list of messages.
pub open spec fn error_lines(ms: Seq<Seq<char>>) -> Seq<Seq<char>> {
    ms.map_values(|m: Seq<char>| error_line(m))
}

/// Pushes an error message to the log, marked `!! `.
pub fn error(errors: &mut Vec<String>, message: &str)
    ensures
        msgs(final(errors)@) == msgs(old(errors)@).push(error_line(message@)),
{
    let mut line = String::from_str("!! ");
    line.append(message);
    proof {
        reveal_strlit("!! ");
    }
    errors.push(line);
    assert(msgs(errors@) =~= msgs(old(errors)@).push(error_line(message@)));
}

/// Pushes each message to the log in order, marked `!! `.
pub fn errors_from(errors: &mut Vec<String>, messages: &Vec<String>)
    ensures
        msgs(final(errors)@) == msgs(old(errors)@) + error_lines(msgs(messages@)),
{
    let ghost ms = msgs(messages@);
    let mut i: usize = 0;
    assert(msgs(errors@) =~= msgs(old(errors)@) + error_lines(ms.take(0)));
    while i < messages.len()
        invariant
            i <= messages@.len(),
            ms == msgs(messages@),
            msgs(errors@) == msgs(old(errors)@) + error_lines(ms.take(i as int)),
        decreases messages@.len() - i,
    {
        error(errors, messages[i].as_str());
        assert(error_lines(ms.take(i + 1)) =~= error_lines(ms.take(i as int)).push(error_line(messages@[i as int]@)));
        assert(msgs(errors@) =~= msgs(old(errors)@) + error_lines(ms.take(i + 1)));
        i = i + 1;
    }
    assert(ms.take(messages@.len() as int) =~= ms);
}

/// Prints a message to the output. There is no output device: the writer
/// the message goes to drops every byte, so nothing is written.
pub fn print(message: &str) {
}

} // verus!
