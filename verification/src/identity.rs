//! Identities: a connection is addressed either by a chosen name (line
//! transport) or by a numeric id that the acceptor assigned (shell-channel
//! transport). An identity is fixed at session start and never changes.

use vstd::prelude::*;
use crate::numbers::dec_digits;
use crate::numbers::u64_to_dec;
use crate::text::bytes_eq;
use vstd::slice::slice_to_vec;

verus! {

/// The name or id a connection is addressed by.
pub enum Identity {
    Name(Vec<u8>),
    Id(u64),
}

/// The mathematical value of an [`Identity`].
pub enum IdentityV {
    Name(Seq<u8>),
    Id(u64),
}

impl View for Identity {
    type V = IdentityV;

    open spec fn view(&self) -> IdentityV {
        match self {
            Identity::Name(n) => IdentityV::Name(n@),
            Identity::Id(i) => IdentityV::Id(*i),
        }
    }
}

/// Copy a byte vector.
pub fn clone_bytes(v: &Vec<u8>) -> (r: Vec<u8>)
    ensures
        r@ == v@,
{
    slice_to_vec(v.as_slice())
}

/// Copy an identity.
pub fn clone_identity(x: &Identity) -> (r: Identity)
    ensures
        r@ == x@,
{
    match x {
        Identity::Name(n) => Identity::Name(clone_bytes(n)),
        Identity::Id(i) => Identity::Id(*i),
    }
}

/// Decide whether two identities are the same address.
pub fn id_eq(a: &Identity, b: &Identity) -> (r: bool)
    ensures
        r == (a@ == b@),
{
    match (a, b) {
        (Identity::Name(x), Identity::Name(y)) => bytes_eq(x, y),
        (Identity::Id(x), Identity::Id(y)) => x == y,
        _ => false,
    }
}

/// The distinguished recipient token that fans a message out to everyone.
pub open spec fn all_token() -> Seq<u8> {
    seq![97u8, 108u8, 108u8]
}

/// Whether `v` is the name `all`, the broadcast address of the line transport.
pub open spec fn is_all(v: IdentityV) -> bool {
    v == IdentityV::Name(all_token())
}

/// Decide whether `x` is the broadcast address `all`.
pub fn identity_is_all(x: &Identity) -> (r: bool)
    ensures
        r == is_all(x@),
{
    match x {
        Identity::Id(_) => false,
        Identity::Name(n) => {
            if n.len() == 3 && n[0] == 97 && n[1] == 108 && n[2] == 108 {
                proof {
                    assert(n@ =~= all_token());
                }
                true
            } else {
                proof {
                    if n@ == all_token() {
                        assert(n@.len() == 3);
                        assert(n@[0] == 97 && n@[1] == 108 && n@[2] == 108);
                    }
                }
                false
            }
        },
    }
}

/// The bytes by which an identity is written into a payload: the name itself,
/// or the decimal numeral of the id.
pub open spec fn identity_text(v: IdentityV) -> Seq<u8> {
    match v {
        IdentityV::Name(n) => n,
        IdentityV::Id(i) => dec_digits(i as nat),
    }
}

/// Render an identity as bytes.
pub fn render_identity(x: &Identity) -> (r: Vec<u8>)
    ensures
        r@ == identity_text(x@),
{
    match x {
        Identity::Name(n) => clone_bytes(n),
        Identity::Id(i) => u64_to_dec(*i),
    }
}

} // verus!
