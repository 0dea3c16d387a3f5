//! Commands: routing an argument list to its handler, and the reply.
//!
//! A reply is one line of text: `+` and a message for success, `-ERR ` and
//! a reason for failure. Every outcome of a command is a reply; nothing
//! escapes [`dispatch`] in another form.

use crate::database::store::{set_result, DatabaseError, MemoryDatabase};
use crate::database::value::{Value, ValueView};
use vstd::prelude::*;
use vstd::string::{StrSliceExecFns, StringExecFns};

verus! {

/// The commands that the dispatcher knows.
#[derive(Debug, PartialEq, Eq, Clone, Copy)]
pub enum Command {
    /// `SET key value`: store the string `value` under `key`.
    SetValue,
}

/// The lower-case form of an ASCII capital; any other character is itself.
pub open spec fn ascii_lower(c: char) -> char {
    if 'A' <= c <= 'Z' {
        ((c as u8 + 32) as u8) as char
    } else {
        c
    }
}

/// Whether `a` and `b` are the same text when ASCII letters are compared
/// without regard to case.
pub open spec fn same_ignoring_case(a: Seq<char>, b: Seq<char>) -> bool {
    &&& a.len() == b.len()
    &&& forall|i: int| 0 <= i < a.len() ==> ascii_lower(#[trigger] a[i]) == ascii_lower(b[i])
}

/// The reply to a command that succeeded.
pub open spec fn reply_ok() -> Seq<char> {
    "+OK"@
}

/// The reply to a command name that is not in the registry, and to an empty
/// argument list.
pub open spec fn reply_unknown_command() -> Seq<char> {
    "-ERR unknown command"@
}

/// The reply to `SET` with other than two arguments behind the name.
pub open spec fn reply_set_arity() -> Seq<char> {
    "-ERR wrong number of arguments for 'set' command"@
}

/// The reply that reports an error of the store.
pub open spec fn reply_store_error(e: DatabaseError) -> Seq<char> {
    match e {
        DatabaseError::KeyDoesNotExist => "-ERR key does not exist"@,
        DatabaseError::MaxSizeExceeded => "-ERR max size exceeded"@,
    }
}

/// The command that `name` stands for, if any. Names are matched without
/// regard to case.
pub open spec fn command_named(name: Seq<char>) -> Option<Command> {
    if same_ignoring_case(name, "set"@) {
        Some(Command::SetValue)
    } else {
        None
    }
}

/// What `SET` does to a store with the entries `m` and the limit
/// `max_size`: the entries afterwards, and the reply.
pub open spec fn set_outcome(m: Map<Seq<char>, ValueView>, max_size: int, args: Seq<Seq<char>>) -> (
    Map<Seq<char>, ValueView>,
    Seq<char>,
) {
    if args.len() != 3 {
        (m, reply_set_arity())
    } else {
        match set_result(m, max_size, args[1], ValueView::String(args[2])) {
            Ok(entries) => (entries, reply_ok()),
            Err(e) => (m, reply_store_error(e)),
        }
    }
}

/// What the argument list `args` does to a store with the entries `m` and
/// the limit `max_size`: the entries afterwards, and the reply.
pub open spec fn dispatch_outcome(
    m: Map<Seq<char>, ValueView>,
    max_size: int,
    args: Seq<Seq<char>>,
) -> (Map<Seq<char>, ValueView>, Seq<char>) {
    if args.len() == 0 {
        (m, reply_unknown_command())
    } else {
        match command_named(args[0]) {
            Some(Command::SetValue) => set_outcome(m, max_size, args),
            None => (m, reply_unknown_command()),
        }
    }
}

fn to_ascii_lower(c: char) -> (r: char)
    ensures
        r == ascii_lower(c),
{
    if 'A' <= c && c <= 'Z' {
        ((c as u8) + 32) as char
    } else {
        c
    }
}

/// Compares two texts without regard to the case of ASCII letters.
fn eq_ignoring_case(a: &str, b: &str) -> (r: bool)
    ensures
        r == same_ignoring_case(a@, b@),
{
    let len = b.unicode_len();
    if a.unicode_len() != len {
        return false;
    }
    let mut i: usize = 0;
    while i < len
        invariant
            0 <= i <= len,
            len == a@.len(),
            len == b@.len(),
            forall|k: int| 0 <= k < i ==> ascii_lower(#[trigger] a@[k]) == ascii_lower(b@[k]),
        decreases len - i,
    {
        if to_ascii_lower(a.get_char(i)) != to_ascii_lower(b.get_char(i)) {
            return false;
        }
        i += 1;
    }
    true
}

impl DatabaseError {
    /// The reply that reports this error.
    pub fn reply(&self) -> (text: String)
        ensures
            text@ == reply_store_error(*self),
    {
        match self {
            DatabaseError::KeyDoesNotExist => String::from_str("-ERR key does not exist"),
            DatabaseError::MaxSizeExceeded => String::from_str("-ERR max size exceeded"),
        }
    }
}

impl Command {
    /// Looks `name` up in the registry.
    pub fn lookup(name: &str) -> (r: Option<Command>)
        ensures
            r == command_named(name@),
    {
        if eq_ignoring_case(name, "set") {
            Some(Command::SetValue)
        } else {
            None
        }
    }

    /// Runs the command on `arguments`, the command's name included, and
    /// returns the reply.
    pub fn run(self, store: &mut MemoryDatabase, arguments: Vec<String>) -> (reply: String)
        requires
            old(store).wf(),
        ensures
            final(store).wf(),
            final(store).max_size() == old(store).max_size(),
            match self {
                Command::SetValue => (final(store)@, reply@) == set_outcome(
                    old(store)@,
                    old(store).max_size(),
                    arguments.deep_view(),
                ),
            },
    {
        match self {
            Command::SetValue => handle_set(store, arguments),
        }
    }
}

/// `SET key value`.
fn handle_set(store: &mut MemoryDatabase, arguments: Vec<String>) -> (reply: String)
    requires
        old(store).wf(),
    ensures
        final(store).wf(),
        final(store).max_size() == old(store).max_size(),
        (final(store)@, reply@) == set_outcome(
            old(store)@,
            old(store).max_size(),
            arguments.deep_view(),
        ),
{
    let mut arguments = arguments;
    if arguments.len() != 3 {
        return String::from_str("-ERR wrong number of arguments for 'set' command");
    }
    let ghost args = arguments.deep_view();
    let value = arguments.pop().unwrap();
    let key = arguments.pop().unwrap();
    assert(key@ == args[1] && value@ == args[2]);
    match store.set(key, Value::String(value)) {
        Ok(()) => String::from_str("+OK"),
        Err(e) => e.reply(),
    }
}

/// Runs the command that `arguments` spell, its name first, against
/// `store` and returns the reply.
///
/// An empty list and an unknown name are answered with an error reply and
/// leave the store as it was.
pub fn dispatch(store: &mut MemoryDatabase, arguments: Vec<String>) -> (reply: String)
    requires
        old(store).wf(),
    ensures
        final(store).wf(),
        final(store).max_size() == old(store).max_size(),
        (final(store)@, reply@) == dispatch_outcome(
            old(store)@,
            old(store).max_size(),
            arguments.deep_view(),
        ),
{
    if arguments.len() == 0 {
        return String::from_str("-ERR unknown command");
    }
    match Command::lookup(arguments[0].as_str()) {
        Some(command) => command.run(store, arguments),
        None => String::from_str("-ERR unknown command"),
    }
}

} // verus!
