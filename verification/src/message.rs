//! Messages to people, which are put into words elsewhere: by a key, and by the
//! arguments that the words are about.
use vstd::prelude::*;

verus! {

/// One argument of a message.
#[derive(Debug)]
pub struct Argument {
    pub name: &'static str,
    pub value: String,
}

/// A message that is put into words where the language is known.
#[derive(Debug)]
pub struct Message {
    pub key: &'static str,
    pub args: Vec<Argument>,
}

/// What a [`Message`] says.
#[verifier::ext_equal]
pub struct MessageView {
    pub key: Seq<char>,
    pub args: Seq<(Seq<char>, Seq<char>)>,
}

/// What some arguments say.
pub open spec fn argument_views(args: Seq<Argument>) -> Seq<(Seq<char>, Seq<char>)> {
    args.map_values(|a: Argument| (a.name@, a.value@))
}

impl Message {
    pub open spec fn view(&self) -> MessageView {
        MessageView { key: self.key@, args: argument_views(self.args@) }
    }

    /// A message without arguments.
    pub fn plain(key: &'static str) -> (out: Message)
        ensures
            out@ == (MessageView { key: key@, args: seq![] }),
    {
        Message { key, args: Vec::new() }
    }

    /// A message with two arguments.
    pub fn with2(
        key: &'static str,
        name: &'static str,
        value: &str,
        other_name: &'static str,
        other_value: &str,
    ) -> (out: Message)
        ensures
            out@ == (MessageView {
                key: key@,
                args: seq![(name@, value@), (other_name@, other_value@)],
            }),
    {
        let mut args: Vec<Argument> = Vec::new();
        args.push(Argument { name, value: value.to_owned() });
        args.push(Argument { name: other_name, value: other_value.to_owned() });
        Message { key, args }
    }
}

/// What a message says is its key, and its arguments by name and value, in order.
pub proof fn law_messages_say_what_they_hold(message: Message, k: int)
    ensures
        message@.key == message.key@,
        message@.args.len() == message.args@.len(),
        0 <= k < message.args@.len() ==> message@.args[k] == (
            message.args@[k].name@,
            message.args@[k].value@,
        ),
{
}

}
