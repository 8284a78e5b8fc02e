use crate::shared_str::{trim, words, SharedStr};
use vstd::prelude::*;

verus! {

/// The characters of each text, in order.
pub open spec fn texts(v: Seq<SharedStr>) -> Seq<Seq<char>> {
    v.map_values(|s: SharedStr| s@)
}

/// What `Command::parse` finds in `msg`: the first word of the trimmed message, if it
/// is longer than `prefix` and begins with it, gives the name (the prefix taken off),
/// and every later word is an argument.
pub open spec fn parse_command(prefix: Seq<char>, msg: Seq<char>) -> Option<
    (Seq<char>, Seq<Seq<char>>),
> {
    let ws = words(trim(msg));
    if ws.len() > 0 && ws[0].len() > prefix.len() && ws[0].subrange(0, prefix.len() as int)
        == prefix {
        Some((ws[0].subrange(prefix.len() as int, ws[0].len() as int), ws.drop_first()))
    } else {
        None
    }
}

/// A command invocation: a name and its ordered arguments.
pub struct Command {
    name: SharedStr,
    args: Vec<SharedStr>,
}

impl View for Command {
    type V = (Seq<char>, Seq<Seq<char>>);

    closed spec fn view(&self) -> (Seq<char>, Seq<Seq<char>>) {
        (self.name@, texts(self.args@))
    }
}

impl Command {
    /// The buffer that the name is a window into.
    pub closed spec fn name_buffer(&self) -> Seq<char> {
        self.name.buffer()
    }

    /// The buffers that the arguments are windows into, in order.
    pub closed spec fn arg_buffers(&self) -> Seq<Seq<char>> {
        self.args@.map_values(|a: SharedStr| a.buffer())
    }

    /// Parses a command out of `msg` for the command prefix `prefix`. The name and the
    /// arguments are windows onto `msg`'s buffer: nothing is copied.
    pub fn parse(prefix: &SharedStr, msg: &SharedStr) -> (r: Option<Command>)
        ensures
            r matches Some(c) ==> parse_command(prefix@, msg@) == Some(c@),
            r is None ==> parse_command(prefix@, msg@) is None,
            r matches Some(c) ==> c.name_buffer() == msg.buffer(),
            r matches Some(c) ==> c.arg_buffers().len() == c@.1.len(),
            r matches Some(c) ==> forall|i: int|
                0 <= i < c@.1.len() ==> #[trigger] c.arg_buffers()[i] == msg.buffer(),
    {
        let ghost buf = msg.buffer();
        let msg = msg.trim();
        let mut args = msg.split_whitespace();
        let ghost ws = words(msg@);
        if args.len() == 0 {
            return None;
        }
        let first = args.remove(0);
        if first.len() <= prefix.len() || !first.starts_with(prefix) {
            return None;
        }
        let name = first.slice_from(prefix.len());
        let c = Command { name, args };
        proof {
            assert(texts(c.args@) =~= ws.drop_first());
            assert forall|i: int| 0 <= i < c.args@.len() implies #[trigger] c.arg_buffers()[i]
                == buf by {
                assert(c.args@[i] == args@[i]);
            }
        }
        Some(c)
    }

    /// The command's name, without the prefix.
    pub fn name(&self) -> (r: &SharedStr)
        ensures
            r@ == self@.0,
            r.buffer() == self.name_buffer(),
    {
        &self.name
    }

    /// The command's arguments, in order, taken out of the command.
    pub fn into_args(self) -> (r: Vec<SharedStr>)
        ensures
            texts(r@) == self@.1,
            r@.map_values(|a: SharedStr| a.buffer()) == self.arg_buffers(),
    {
        self.args
    }

    /// The command's arguments, in order.
    pub fn args(&self) -> (r: &[SharedStr])
        ensures
            texts(r@) == self@.1,
            r@.map_values(|a: SharedStr| a.buffer()) == self.arg_buffers(),
    {
        self.args.as_slice()
    }
}

} // verus!
