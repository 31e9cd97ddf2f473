//! The public-key allow list: a text file with one key per line, each line
//! either `<type> <base64> [comment…]` or a bare `<base64>`. The relay's
//! authentication gate reads the file and compares each candidate against the
//! key a client offered; this module owns the exact shape of that reading —
//! which token of each line is the candidate.

use vstd::prelude::*;
use russh::keys::PublicKeyBase64;
use crate::identity::clone_bytes;
use crate::text::is_space;
use crate::text::byte_is_space;
use crate::text::split;
use crate::text::split_byte;
use crate::text::views;

verus! {

/// The maximal runs of non-whitespace bytes of `s`, in order.
pub open spec fn tokens(s: Seq<u8>) -> Seq<Seq<u8>>
    decreases s.len(),
{
    if s.len() == 0 {
        Seq::empty()
    } else if is_space(s[0]) {
        tokens(s.drop_first())
    } else {
        let rest = tokens(s.drop_first());
        if s.len() > 1 && !is_space(s[1]) {
            seq![seq![s[0]] + rest[0]] + rest.drop_first()
        } else {
            seq![seq![s[0]]] + rest
        }
    }
}

proof fn lemma_tokens_nonempty(s: Seq<u8>)
    requires
        s.len() > 0,
        !is_space(s[0]),
    ensures
        tokens(s).len() >= 1,
{
}

/// Split `s` into its whitespace-delimited tokens.
pub fn tokenize(s: &Vec<u8>) -> (r: Vec<Vec<u8>>)
    ensures
        views(r@) == tokens(s@),
{
    let ghost full = tokens(s@);
    let mut out: Vec<Vec<u8>> = Vec::new();
    let mut cur: Vec<u8> = Vec::new();
    let mut k: usize = 0;
    proof {
        assert(s@.skip(0) =~= s@);
    }
    while k < s.len()
        invariant
            0 <= k <= s@.len(),
            full == tokens(s@),
            full =~= views(out@) + (if cur@.len() == 0 {
                tokens(s@.skip(k as int))
            } else if k < s@.len() && !is_space(s@[k as int]) {
                seq![cur@ + tokens(s@.skip(k as int))[0]] + tokens(
                    s@.skip(k as int),
                ).drop_first()
            } else {
                seq![cur@] + tokens(s@.skip(k as int))
            }),
            cur@.len() > 0 && k < s@.len() && !is_space(s@[k as int]) ==> tokens(
                s@.skip(k as int),
            ).len() >= 1,
        decreases s@.len() - k,
    {
        let ghost pre = s@.skip(k as int);
        proof {
            assert(pre[0] == s@[k as int]);
            assert(pre.drop_first() =~= s@.skip(k + 1 as int));
            if k + 1 < s@.len() {
                assert(pre[1] == s@[k + 1]);
            }
        }
        if byte_is_space(s[k]) {
            if cur.len() > 0 {
                let ghost before = views(out@);
                out.push(cur);
                cur = Vec::new();
                proof {
                    assert(views(out@) =~= before.push(out@[out@.len() - 1]@));
                }
            }
            proof {
                assert(tokens(pre) == tokens(s@.skip(k + 1 as int)));
            }
        } else {
            proof {
                if pre.len() > 1 && !is_space(pre[1]) {
                    lemma_tokens_nonempty(pre.drop_first());
                }
            }
            let ghost cv = cur@;
            cur.push(s[k]);
            proof {
                let t1 = tokens(s@.skip(k + 1 as int));
                if k + 1 < s@.len() && !is_space(s@[k + 1]) {
                    assert(tokens(pre) =~= seq![seq![pre[0]] + t1[0]] + t1.drop_first());
                    assert(cur@ + t1[0] =~= cv + tokens(pre)[0]);
                } else {
                    assert(tokens(pre) =~= seq![seq![pre[0]]] + t1);
                    assert(cur@ =~= cv + tokens(pre)[0]);
                    assert(tokens(pre).drop_first() =~= t1);
                }
            }
        }
        k = k + 1;
    }
    proof {
        assert(s@.skip(s@.len() as int) =~= Seq::<u8>::empty());
    }
    if cur.len() > 0 {
        let ghost before = views(out@);
        out.push(cur);
        proof {
            assert(views(out@) =~= before.push(out@[out@.len() - 1]@));
        }
    }
    proof {
        assert(views(out@) =~= full);
    }
    out
}

/// The candidate key of one line: the second token where the line has a type
/// prefix, the sole token of a bare key line, nothing of a blank line.
pub open spec fn line_candidate(line: Seq<u8>) -> Seq<Seq<u8>> {
    let tk = tokens(line);
    if tk.len() >= 2 {
        seq![tk[1]]
    } else if tk.len() == 1 {
        seq![tk[0]]
    } else {
        Seq::empty()
    }
}

/// The candidate keys of an allow-list file, top to bottom: one candidate per
/// non-blank line.
pub open spec fn candidates_spec(lines: Seq<Seq<u8>>) -> Seq<Seq<u8>>
    decreases lines.len(),
{
    if lines.len() == 0 {
        Seq::empty()
    } else {
        line_candidate(lines[0]) + candidates_spec(lines.drop_first())
    }
}

/// A candidate key of the allow list could not be decoded.
#[derive(Debug, PartialEq, Eq, Structural, Clone, Copy)]
pub struct KeyListError;

/// What one base64 candidate decodes to: the wire bytes of the public key it
/// encodes, or nothing when it does not decode. The decoding is a function of
/// the candidate bytes alone.
pub uninterp spec fn parse_of(s: Seq<u8>) -> Option<Seq<u8>>;

/// Relies on `russh::keys::parse_public_key_base64` and on the key's wire
/// encoding (`PublicKeyBase64::public_key_bytes`): a candidate that decodes
/// comes back as the decoded key's wire bytes; one that does not — a
/// non-base64 token, or bytes that are not text — is an error.
#[verifier::external_body]
fn parse_candidate(candidate: &Vec<u8>) -> (r: Result<Vec<u8>, KeyListError>)
    ensures
        r matches Ok(b) ==> parse_of(candidate@) == Some(b@),
        r is Err ==> parse_of(candidate@) is None,
{
    match core::str::from_utf8(candidate.as_slice()) {
        Ok(s) => match russh::keys::parse_public_key_base64(s) {
            Ok(key) => Ok(key.public_key_bytes()),
            Err(_) => Err(KeyListError),
        },
        Err(_) => Err(KeyListError),
    }
}

/// Whether every candidate before position `k` decodes to a key other than
/// `client`.
pub open spec fn no_match_before(cs: Seq<Seq<u8>>, client: Seq<u8>, k: int) -> bool {
    forall|j: int|
        0 <= j < k ==> (#[trigger] parse_of(cs[j]) matches Some(b) && b != client)
}

/// Decide whether the allow-list file `text` admits the client key, given by
/// its wire bytes: the candidates are decoded and compared in order. The
/// check admits the key exactly when some candidate decodes to it and every
/// earlier candidate decoded to a different key; a candidate that does not
/// decode, met before any match, is an error rather than a silently skipped
/// line; and no key is admitted before every candidate was examined.
pub fn check_public_key(text: &Vec<u8>, client_key: &Vec<u8>) -> (r: Result<bool, KeyListError>)
    ensures
        ({
            let cs = candidates_spec(split_byte(text@, 10));
            &&& (r == Ok::<bool, KeyListError>(true) <==> exists|k: int|
                0 <= k < cs.len() && #[trigger] parse_of(cs[k]) == Some(client_key@)
                    && no_match_before(cs, client_key@, k))
            &&& (r is Err <==> exists|k: int|
                0 <= k < cs.len() && #[trigger] parse_of(cs[k]) is None && no_match_before(
                    cs,
                    client_key@,
                    k,
                ))
            &&& (r == Ok::<bool, KeyListError>(false) <==> no_match_before(
                cs,
                client_key@,
                cs.len() as int,
            ))
        }),
{
    let ghost cs = candidates_spec(split_byte(text@, 10));
    let candidates = candidate_keys(text);
    let mut k: usize = 0;
    while k < candidates.len()
        invariant
            0 <= k <= candidates@.len(),
            cs == candidates_spec(split_byte(text@, 10)),
            views(candidates@) == cs,
            no_match_before(cs, client_key@, k as int),
        decreases candidates@.len() - k,
    {
        assert(candidates@[k as int]@ == cs[k as int]);
        match parse_candidate(&candidates[k]) {
            Ok(wire) => {
                if crate::text::bytes_eq(&wire, client_key) {
                    proof {
                        lemma_verdicts_exclusive(cs, client_key@, k as int);
                    }
                    return Ok(true);
                }
                assert(parse_of(cs[k as int]) matches Some(b) && b != client_key@);
                assert(no_match_before(cs, client_key@, k + 1 as int));
            },
            Err(_) => {
                proof {
                    lemma_verdicts_exclusive(cs, client_key@, k as int);
                }
                return Err(KeyListError);
            },
        }
        k = k + 1;
    }
    proof {
        assert(no_match_before(cs, client_key@, cs.len() as int));
        if exists|i: int|
            0 <= i < cs.len() && (#[trigger] parse_of(cs[i]) == Some(client_key@) || parse_of(
                cs[i],
            ) is None) {
            let i = choose|i: int|
                0 <= i < cs.len() && (#[trigger] parse_of(cs[i]) == Some(client_key@) || parse_of(
                    cs[i],
                ) is None);
            assert(parse_of(cs[i]) matches Some(b) && b != client_key@);
        }
    }
    Ok(false)
}

/// At the first decisive candidate — one that fails to decode, or one that
/// decodes to the client's key — no other position can be decisive, so the
/// three verdicts exclude one another.
proof fn lemma_verdicts_exclusive(cs: Seq<Seq<u8>>, client: Seq<u8>, k: int)
    requires
        0 <= k < cs.len(),
        no_match_before(cs, client, k),
        parse_of(cs[k]) == Some(client) || parse_of(cs[k]) is None,
    ensures
        forall|i: int|
            0 <= i < cs.len() && #[trigger] parse_of(cs[i]) == Some(client) && no_match_before(
                cs,
                client,
                i,
            ) ==> i == k && parse_of(cs[k]) == Some(client),
        forall|i: int|
            0 <= i < cs.len() && #[trigger] parse_of(cs[i]) is None && no_match_before(
                cs,
                client,
                i,
            ) ==> i == k && parse_of(cs[k]) is None,
        !no_match_before(cs, client, cs.len() as int),
{
    assert forall|i: int|
        0 <= i < cs.len() && (#[trigger] parse_of(cs[i]) == Some(client) || parse_of(cs[i]) is None)
            && no_match_before(cs, client, i) implies i == k by {
        if i < k {
            assert(parse_of(cs[i]) matches Some(b) && b != client);
        } else if i > k {
            assert(parse_of(cs[k]) matches Some(b) && b != client);
        }
    }
    assert(!(parse_of(cs[k]) matches Some(b) && b != client));
}

/// Read an allow-list file's bytes into the candidate keys it offers.
pub fn candidate_keys(text: &Vec<u8>) -> (r: Vec<Vec<u8>>)
    ensures
        views(r@) == candidates_spec(split_byte(text@, 10)),
{
    let lines = split(text, 10);
    let ghost lv = views(lines@);
    let mut out: Vec<Vec<u8>> = Vec::new();
    let mut k: usize = 0;
    proof {
        assert(lv.skip(0) =~= lv);
    }
    while k < lines.len()
        invariant
            0 <= k <= lines@.len(),
            lv == views(lines@),
            lv.len() == lines@.len(),
            views(out@) + candidates_spec(lv.skip(k as int)) =~= candidates_spec(lv),
        decreases lines@.len() - k,
    {
        let ghost pre = lv.skip(k as int);
        proof {
            assert(pre[0] == lv[k as int]);
            assert(pre.drop_first() =~= lv.skip(k + 1 as int));
        }
        let tk = tokenize(&lines[k]);
        let ghost before = views(out@);
        if tk.len() >= 2 {
            out.push(clone_bytes(&tk[1]));
            proof {
                assert(views(out@) =~= before.push(tokens(lv[k as int])[1]));
            }
        } else if tk.len() == 1 {
            out.push(clone_bytes(&tk[0]));
            proof {
                assert(views(out@) =~= before.push(tokens(lv[k as int])[0]));
            }
        }
        proof {
            assert(views(out@) + candidates_spec(lv.skip(k + 1 as int)) =~= before
                + line_candidate(lv[k as int]) + candidates_spec(lv.skip(k + 1 as int)));
        }
        k = k + 1;
    }
    proof {
        assert(lv.skip(lv.len() as int) =~= Seq::<Seq<u8>>::empty());
        assert(views(out@) =~= candidates_spec(lv));
    }
    out
}

} // verus!
