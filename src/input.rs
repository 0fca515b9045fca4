//! How interactive input is gathered into one program.
use vstd::prelude::*;

verus! {

/// A blank line, with or without a carriage return, ends a program typed
/// line by line.
pub open spec fn is_terminator(line: Seq<char>) -> bool {
    line == seq!['\n'] || line == seq!['\r', '\n']
}

/// The line read, as part of the program, or `None` where it ends the
/// program.
pub fn full_lines(line: Vec<char>) -> (r: Option<Vec<char>>)
    ensures
        r is None <==> is_terminator(line@),
        r is Some ==> r->Some_0@ == line@,
{
    let n = line.len();
    if (n == 1 && line[0] == '\n') || (n == 2 && line[0] == '\r' && line[1] == '\n') {
        assert(n == 1 ==> line@ =~= seq!['\n']);
        assert(n == 2 ==> line@ =~= seq!['\r', '\n']);
        return None;
    }
    Some(line)
}

} // verus!
