//! Steam launch integration: the launch-option string shown to the user, and
//! the parsing of the wrapped game command the monitor receives.
//!
//! Steam expands `%command%` to the game's full command line and passes it to
//! this program, which forwards it verbatim, so that Easy Anti-Cheat's
//! `start_protected_game.exe` still runs as it would without the wrapper.

use vstd::prelude::*;

use crate::text::{concat, str_eq};

verus! {

/// The argument that selects monitor mode.
pub const MONITOR_FLAG: &'static str = "--monitor";

/// The exact launch option a user pastes into Steam: the program's path in
/// double quotes, the monitor flag, and `%command%` for Steam to expand.
pub open spec fn launch_option_text(exe: Seq<char>) -> Seq<char> {
    seq!['"'] + exe + "\" --monitor %command%"@
}

/// The launch option for the program at `exe` (its path as text).
pub fn launch_option(exe: &str) -> (r: String)
    ensures
        r@ == launch_option_text(exe@),
{
    let head = concat("\"", exe);
    let r = concat(head.as_str(), "\" --monitor %command%");
    proof {
        reveal_strlit("\"");
        assert(r@ =~= launch_option_text(exe@));
    }
    r
}

/// The game command the monitor spawns: `program` and its `args`, exactly as
/// Steam provided them.
#[derive(Debug, Clone, PartialEq, Eq)]
pub struct GameCommand<A> {
    pub program: A,
    pub args: Vec<A>,
}

/// Splits the arguments after this program's own name into the wrapped game
/// command, whatever their type: `Some` when the first argument is the
/// monitor flag (`first_is_flag`) and a program follows it.
pub fn split_monitor_args<A>(args: Vec<A>, first_is_flag: bool) -> (r: Option<GameCommand<A>>)
    ensures
        r is Some <==> (first_is_flag && args@.len() >= 2),
        r matches Some(cmd) ==> cmd.program == args@[1] && cmd.args@ == args@.skip(2),
{
    if !first_is_flag || args.len() < 2 {
        return None;
    }
    let ghost orig = args@;
    let mut rest = args;
    rest.remove(0);
    let program = rest.remove(0);
    assert(rest@ =~= orig.skip(2));
    Some(GameCommand { program, args: rest })
}

/// Parses the arguments after this program's own name. Returns the wrapped
/// game command when invoked as `<exe> --monitor <program> [args...]`, else
/// `None` (a normal launch, or `--monitor` with nothing after it).
pub fn parse_monitor_args(args: Vec<String>) -> (r: Option<GameCommand<String>>)
    ensures
        r is Some <==> (args@.len() >= 2 && args@[0]@ == MONITOR_FLAG@),
        r matches Some(cmd) ==> cmd.program == args@[1] && cmd.args@ == args@.skip(2),
{
    let first_is_flag = args.len() > 0 && str_eq(args[0].as_str(), MONITOR_FLAG);
    split_monitor_args(args, first_is_flag)
}

} // verus!
