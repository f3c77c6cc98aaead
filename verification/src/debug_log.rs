//! The session log as the settings panel shows it: the last lines of the
//! file. Writing the log and reading the file are left to the caller.

use vstd::prelude::*;
use crate::text::{join, join_strings, lines, split_lines};

verus! {

/// How many of the newest lines the debug view shows.
pub const TAIL_LINES: usize = 200;

/// The last `TAIL_LINES` lines of the log (all of them when there are
/// fewer), joined with `"\n"`.
pub open spec fn log_tail_spec(contents: Seq<char>) -> Seq<char> {
    let ls = lines(contents);
    let start = if ls.len() > TAIL_LINES {
        ls.len() - TAIL_LINES
    } else {
        0
    };
    join(ls.skip(start), "\n"@)
}

/// The newest lines of the log file's contents.
pub fn log_tail(contents: &str) -> (t: String)
    ensures
        t@ == log_tail_spec(contents@),
        lines(contents@).len() <= TAIL_LINES ==> t@ == join(lines(contents@), "\n"@),
{
    let ls = split_lines(contents);
    let start: usize = if ls.len() > TAIL_LINES {
        ls.len() - TAIL_LINES
    } else {
        0
    };
    let t = join_strings(&ls, start, "\n");
    proof {
        let all = lines(contents@);
        assert(ls@.skip(start as int).map_values(|s: String| s@) =~= all.skip(start as int));
        assert(all.skip(0) =~= all);
    }
    t
}

} // verus!
