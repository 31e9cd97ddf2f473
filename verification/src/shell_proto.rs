//! The shell-channel command grammar: the first space-delimited token of a
//! trimmed input selects a verb. `/message <id> <text…>` is a unicast by
//! numeric id, `/clients` asks for the list of registered ids, `/quit`
//! deregisters the caller; anything else, an empty input included, is a no-op.

use vstd::prelude::*;
use vstd::slice::slice_to_vec;
use vstd::string::StringSliceAdditionalSpecFns;
use crate::identity::Identity;
use crate::numbers::all_digits;
use crate::numbers::dec_digits;
use crate::numbers::dec_val;
use crate::numbers::parse_u64;
use crate::numbers::u64_to_dec;
use crate::router::Intent;
use crate::text::append_bytes;
use crate::text::join;
use crate::text::join_with;
use crate::text::split;
use crate::text::split_byte;
use crate::text::trim;
use crate::text::trim_spec;
use crate::text::views;

verus! {

/// What one shell-channel input asks for.
pub enum ShellCommand {
    /// `/message <id> <text…>`: deliver the text to the given numeric id.
    Send { to: u64, body: Vec<u8> },
    /// `/message` without a receiver id: the caller is told the usage.
    SendMissingArg,
    /// `/clients`: the caller is sent the list of registered ids.
    Clients,
    /// `/quit`: deregister the caller and close the channel.
    Quit,
    /// Anything else: ignored.
    Nop,
}

/// The mathematical value of a [`ShellCommand`].
pub enum ShellCommandV {
    Send { to: u64, body: Seq<u8> },
    SendMissingArg,
    Clients,
    Quit,
    Nop,
}

impl View for ShellCommand {
    type V = ShellCommandV;

    open spec fn view(&self) -> ShellCommandV {
        match self {
            ShellCommand::Send { to, body } => ShellCommandV::Send { to: *to, body: body@ },
            ShellCommand::SendMissingArg => ShellCommandV::SendMissingArg,
            ShellCommand::Clients => ShellCommandV::Clients,
            ShellCommand::Quit => ShellCommandV::Quit,
            ShellCommand::Nop => ShellCommandV::Nop,
        }
    }
}

/// The verb selecting a unicast by id.
pub open spec fn verb_message() -> Seq<u8> {
    "/message".spec_bytes()
}

/// The verb asking for the registered ids.
pub open spec fn verb_clients() -> Seq<u8> {
    "/clients".spec_bytes()
}

/// The verb deregistering the caller.
pub open spec fn verb_quit() -> Seq<u8> {
    "/quit".spec_bytes()
}

/// What a shell-channel input means. The input is trimmed, split on single
/// spaces, and the first token picks the verb; the body of a `/message` is
/// the remaining tokens rejoined, so interior runs of spaces survive intact.
pub open spec fn parse_shell_spec(input: Seq<u8>) -> ShellCommandV {
    let words = split_byte(trim_spec(input), 32);
    if words[0] == verb_message() {
        if words.len() < 2 {
            ShellCommandV::SendMissingArg
        } else if words[1].len() > 0 && all_digits(words[1]) && dec_val(words[1]) <= u64::MAX {
            ShellCommandV::Send {
                to: dec_val(words[1]) as u64,
                body: join_with(words.skip(2), seq![32u8]),
            }
        } else {
            ShellCommandV::Nop
        }
    } else if words[0] == verb_clients() {
        ShellCommandV::Clients
    } else if words[0] == verb_quit() {
        ShellCommandV::Quit
    } else {
        ShellCommandV::Nop
    }
}

/// Parse one shell-channel input.
pub fn parse_shell(input: &Vec<u8>) -> (r: ShellCommand)
    ensures
        r@ == parse_shell_spec(input@),
{
    let t = trim(input);
    let words = split(&t, 32);
    let ghost wv = split_byte(trim_spec(input@), 32);
    assert(views(words@) == wv);
    assert(words@[0]@ == wv[0]);
    let msg_verb = slice_to_vec("/message".as_bytes());
    if crate::text::bytes_eq(&words[0], &msg_verb) {
        if words.len() < 2 {
            ShellCommand::SendMissingArg
        } else {
            assert(words@[1]@ == wv[1]);
            match parse_u64(&words[1]) {
                Some(id) => {
                    let mut rest: Vec<Vec<u8>> = Vec::new();
                    let mut k: usize = 2;
                    while k < words.len()
                        invariant
                            2 <= k <= words@.len(),
                            views(words@) == wv,
                            views(rest@) =~= wv.skip(2).take(k - 2),
                        decreases words@.len() - k,
                    {
                        let ghost before = views(rest@);
                        rest.push(crate::identity::clone_bytes(&words[k]));
                        proof {
                            assert(views(rest@) =~= before.push(wv[k as int]));
                            assert(wv.skip(2).take(k - 2 + 1) =~= wv.skip(2).take(k - 2).push(
                                wv.skip(2)[k - 2],
                            ));
                        }
                        k = k + 1;
                    }
                    proof {
                        assert(views(rest@) =~= wv.skip(2));
                    }
                    let mut sep: Vec<u8> = Vec::new();
                    sep.push(32);
                    let body = join(&rest, &sep);
                    assert(sep@ =~= seq![32u8]);
                    ShellCommand::Send { to: id, body }
                },
                None => ShellCommand::Nop,
            }
        }
    } else if crate::text::bytes_eq(&words[0], &slice_to_vec("/clients".as_bytes())) {
        ShellCommand::Clients
    } else if crate::text::bytes_eq(&words[0], &slice_to_vec("/quit".as_bytes())) {
        ShellCommand::Quit
    } else {
        ShellCommand::Nop
    }
}

/// The usage notice returned for a `/message` without a receiver id.
pub open spec fn missing_arg_text() -> Seq<u8> {
    "Input must include the receiver id, then message".spec_bytes()
}

/// Build the usage notice for a `/message` without a receiver id.
pub fn missing_arg_bytes() -> (r: Vec<u8>)
    ensures
        r@ == missing_arg_text(),
{
    slice_to_vec("Input must include the receiver id, then message".as_bytes())
}

/// The intent a parsed shell command submits to the router, if any: a
/// unicast by id from the caller, or the caller's own deregistration.
pub fn shell_intent(caller: u64, cmd: &ShellCommand) -> (r: Option<Intent>)
    ensures
        match cmd@ {
            ShellCommandV::Send { to, body } => r matches Some(i) && i@
                == (crate::router::IntentV::Message {
                from: crate::identity::IdentityV::Id(caller),
                to: seq![crate::identity::IdentityV::Id(to)],
                body: body,
            }),
            ShellCommandV::Quit => r matches Some(i) && i@
                == (crate::router::IntentV::Disconnect {
                identity: crate::identity::IdentityV::Id(caller),
            }),
            _ => r is None,
        },
{
    match cmd {
        ShellCommand::Send { to, body } => {
            let mut rcpt: Vec<Identity> = Vec::new();
            rcpt.push(Identity::Id(*to));
            let i = Intent::Message {
                from: Identity::Id(caller),
                to: rcpt,
                body: crate::identity::clone_bytes(body),
            };
            proof {
                assert(crate::router::id_views(seq![Identity::Id(cmd@->Send_to)]) =~= seq![
                    crate::identity::IdentityV::Id(cmd@->Send_to),
                ]);
            }
            Some(i)
        },
        ShellCommand::Quit => Some(Intent::Disconnect { identity: Identity::Id(caller) }),
        ShellCommand::SendMissingArg => None,
        ShellCommand::Clients => None,
        ShellCommand::Nop => None,
    }
}

/// Everything one shell-channel input asks the surrounding task to do: at
/// most one intent for the router, at most one in-band reply, and whether the
/// channel closes.
pub struct ShellStep {
    /// The intent to submit to the router, if any.
    pub intent: Option<Intent>,
    /// Reply with the `/message` usage notice.
    pub reply_usage: bool,
    /// Reply with the router's `/clients` response.
    pub reply_clients: bool,
    /// Close the channel after submitting the intent.
    pub close: bool,
}

/// Decide what one shell-channel input from `caller` does. This is the whole
/// dispatch: every verb of the grammar is handled, and anything else does
/// nothing.
pub fn shell_step(caller: u64, data: &Vec<u8>) -> (out: ShellStep)
    ensures
        match parse_shell_spec(data@) {
            ShellCommandV::Send { to, body } => {
                &&& out.intent matches Some(i) && i@ == (crate::router::IntentV::Message {
                    from: crate::identity::IdentityV::Id(caller),
                    to: seq![crate::identity::IdentityV::Id(to)],
                    body: body,
                })
                &&& !out.reply_usage
                &&& !out.reply_clients
                &&& !out.close
            },
            ShellCommandV::SendMissingArg => {
                &&& out.intent is None
                &&& out.reply_usage
                &&& !out.reply_clients
                &&& !out.close
            },
            ShellCommandV::Clients => {
                &&& out.intent is None
                &&& !out.reply_usage
                &&& out.reply_clients
                &&& !out.close
            },
            ShellCommandV::Quit => {
                &&& out.intent matches Some(i) && i@ == (crate::router::IntentV::Disconnect {
                    identity: crate::identity::IdentityV::Id(caller),
                })
                &&& !out.reply_usage
                &&& !out.reply_clients
                &&& out.close
            },
            ShellCommandV::Nop => {
                &&& out.intent is None
                &&& !out.reply_usage
                &&& !out.reply_clients
                &&& !out.close
            },
        },
{
    let cmd = parse_shell(data);
    let intent = shell_intent(caller, &cmd);
    match cmd {
        ShellCommand::Send { .. } => ShellStep {
            intent,
            reply_usage: false,
            reply_clients: false,
            close: false,
        },
        ShellCommand::SendMissingArg => ShellStep {
            intent,
            reply_usage: true,
            reply_clients: false,
            close: false,
        },
        ShellCommand::Clients => ShellStep {
            intent,
            reply_usage: false,
            reply_clients: true,
            close: false,
        },
        ShellCommand::Quit => ShellStep {
            intent,
            reply_usage: false,
            reply_clients: false,
            close: true,
        },
        ShellCommand::Nop => ShellStep {
            intent,
            reply_usage: false,
            reply_clients: false,
            close: false,
        },
    }
}

/// The response to `/clients`: the registered ids, comma-joined, then the
/// caller's own id.
pub open spec fn clients_response_spec(ids: Seq<u64>, caller: u64) -> Seq<u8> {
    "\r\r\nFollowing client ids are available to be connected to: ".spec_bytes() + join_with(
        ids.map_values(|i: u64| dec_digits(i as nat)),
        ", ".spec_bytes(),
    ) + "\r\n".spec_bytes() + "Your client id is ".spec_bytes() + dec_digits(caller as nat)
        + "\r\r\n".spec_bytes()
}

/// Build the `/clients` response for the given registered ids and caller.
pub fn clients_response_bytes(ids: &Vec<u64>, caller: u64) -> (r: Vec<u8>)
    ensures
        r@ == clients_response_spec(ids@, caller),
{
    let ghost target = ids@.map_values(|i: u64| dec_digits(i as nat));
    let mut numerals: Vec<Vec<u8>> = Vec::new();
    let mut k: usize = 0;
    while k < ids.len()
        invariant
            0 <= k <= ids@.len(),
            target == ids@.map_values(|i: u64| dec_digits(i as nat)),
            views(numerals@) =~= target.take(k as int),
        decreases ids@.len() - k,
    {
        let ghost before = views(numerals@);
        numerals.push(u64_to_dec(ids[k]));
        proof {
            assert(views(numerals@) =~= before.push(target[k as int]));
            assert(target.take(k + 1 as int) =~= target.take(k as int).push(target[k as int]));
        }
        k = k + 1;
    }
    proof {
        assert(views(numerals@) =~= target);
    }
    let joined = join(&numerals, &slice_to_vec(", ".as_bytes()));
    let mut r = slice_to_vec(
        "\r\r\nFollowing client ids are available to be connected to: ".as_bytes(),
    );
    append_bytes(&mut r, &joined);
    append_bytes(&mut r, &slice_to_vec("\r\n".as_bytes()));
    append_bytes(&mut r, &slice_to_vec("Your client id is ".as_bytes()));
    append_bytes(&mut r, &u64_to_dec(caller));
    append_bytes(&mut r, &slice_to_vec("\r\r\n".as_bytes()));
    r
}

} // verus!
