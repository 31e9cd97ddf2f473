//! The line-transport command grammar: `"<recipient>[,<recipient>...]: <message>"`.
//! A line is split at its first colon; the left side is a comma-separated
//! recipient list, each name trimmed; the right side, trimmed, is the body.
//! A line without a colon is silently discarded — a documented usability gap
//! of the protocol, kept as is.

use vstd::prelude::*;
use crate::identity::clone_bytes;
use crate::identity::clone_identity;
use crate::identity::Identity;
use crate::identity::IdentityV;
use crate::router::id_views;
use crate::router::Intent;
use crate::router::IntentV;
use crate::text::find;
use crate::text::find_byte;
use crate::text::split;
use crate::text::split_byte;
use crate::text::subvec;
use crate::text::trim;
use crate::text::trim_spec;
use crate::text::views;

verus! {

/// A successfully parsed addressed line.
pub struct ParsedLine {
    /// The recipient names, in the order written, each trimmed.
    pub recipients: Vec<Vec<u8>>,
    /// The message body, trimmed.
    pub body: Vec<u8>,
}

/// What an addressed line means: `None` when the line has no colon, otherwise
/// the trimmed comma-separated names before the first colon and the trimmed
/// body after it.
pub open spec fn parse_line_spec(line: Seq<u8>) -> Option<(Seq<Seq<u8>>, Seq<u8>)> {
    match find_byte(line, 58) {
        None => None,
        Some(i) => Some(
            (
                split_byte(line.subrange(0, i), 44).map_values(|p: Seq<u8>| trim_spec(p)),
                trim_spec(line.subrange(i + 1, line.len() as int)),
            ),
        ),
    }
}

/// Parse one inbound line of the line transport.
pub fn parse_line(line: &Vec<u8>) -> (r: Option<ParsedLine>)
    ensures
        match r {
            None => parse_line_spec(line@) is None,
            Some(p) => parse_line_spec(line@) == Some((views(p.recipients@), p.body@)),
        },
        r is None <==> find_byte(line@, 58) is None,
{
    let colon = match find(line, 58) {
        None => {
            return None;
        },
        Some(i) => i,
    };
    proof {
        crate::text::lemma_find_byte(line@, 58);
        assert(colon < line@.len());
    }
    let left = subvec(line, 0, colon);
    let pieces = split(&left, 44);
    let ghost target = split_byte(left@, 44).map_values(|p: Seq<u8>| trim_spec(p));
    let mut recipients: Vec<Vec<u8>> = Vec::new();
    let mut k: usize = 0;
    while k < pieces.len()
        invariant
            0 <= k <= pieces@.len(),
            views(pieces@) == split_byte(left@, 44),
            target == split_byte(left@, 44).map_values(|p: Seq<u8>| trim_spec(p)),
            views(recipients@) =~= target.take(k as int),
        decreases pieces@.len() - k,
    {
        let ghost before = views(recipients@);
        recipients.push(trim(&pieces[k]));
        proof {
            assert(views(recipients@) =~= before.push(trim_spec(pieces@[k as int]@)));
            assert(target[k as int] == trim_spec(views(pieces@)[k as int]));
            assert(target.take(k + 1 as int) =~= target.take(k as int).push(target[k as int]));
        }
        k = k + 1;
    }
    proof {
        assert(target.take(pieces@.len() as int) =~= target);
    }
    let n = line.len();
    assert(colon < n);
    let right = subvec(line, colon + 1, n);
    let body = trim(&right);
    Some(ParsedLine { recipients, body })
}

/// The intent one inbound line of the line transport submits: a message from
/// the session's identity to the named recipients, or nothing at all when the
/// line has no colon.
pub open spec fn line_intent_spec(from: IdentityV, line: Seq<u8>) -> Option<IntentV> {
    match parse_line_spec(line) {
        None => None,
        Some(pr) => Some(
            IntentV::Message {
                from: from,
                to: pr.0.map_values(|n: Seq<u8>| IdentityV::Name(n)),
                body: pr.1,
            },
        ),
    }
}

/// Turn one inbound line into the intent it submits, if any. A line without
/// a colon produces no intent.
pub fn intent_for_line(from: &Identity, line: &Vec<u8>) -> (r: Option<Intent>)
    ensures
        match r {
            None => line_intent_spec(from@, line@) is None,
            Some(i) => line_intent_spec(from@, line@) == Some(i@),
        },
        r is None <==> find_byte(line@, 58) is None,
{
    let parsed = match parse_line(line) {
        None => {
            return None;
        },
        Some(p) => p,
    };
    let ghost target = views(parsed.recipients@).map_values(|n: Seq<u8>| IdentityV::Name(n));
    let mut to: Vec<Identity> = Vec::new();
    let mut k: usize = 0;
    while k < parsed.recipients.len()
        invariant
            0 <= k <= parsed.recipients@.len(),
            target == views(parsed.recipients@).map_values(|n: Seq<u8>| IdentityV::Name(n)),
            id_views(to@) =~= target.take(k as int),
        decreases parsed.recipients@.len() - k,
    {
        let ghost before = id_views(to@);
        to.push(Identity::Name(clone_bytes(&parsed.recipients[k])));
        proof {
            assert(id_views(to@) =~= before.push(target[k as int]));
            assert(target.take(k + 1 as int) =~= target.take(k as int).push(target[k as int]));
        }
        k = k + 1;
    }
    proof {
        assert(id_views(to@) =~= target);
    }
    Some(Intent::Message { from: clone_identity(from), to, body: parsed.body })
}

} // verus!
