//! The relay's delivery laws, stated and proved over the router's
//! specification: who receives a unicast, a multicast, a broadcast, a
//! shutdown notice — and who never does.

use vstd::prelude::*;
use crate::identity::identity_text;
use crate::identity::is_all;
use crate::identity::IdentityV;
use crate::router::broadcast_spec;
use crate::router::distinct;
use crate::router::has_all;
use crate::router::mk_delivery;
use crate::router::multicast_spec;
use crate::router::notices_spec;
use crate::router::payload_for;
use crate::router::register_spec;
use crate::router::route_spec;
use crate::router::shutdown_notice;
use crate::router::DeliveryV;
use crate::line_proto::line_intent_spec;
use crate::text::find_byte;

verus! {

/// How many of the deliveries are addressed to `x`.
pub open spec fn count_to(ds: Seq<DeliveryV>, x: IdentityV) -> int
    decreases ds.len(),
{
    if ds.len() == 0 {
        0
    } else {
        (if ds[0].to == x {
            1int
        } else {
            0int
        }) + count_to(ds.drop_first(), x)
    }
}

/// How many registry entries carry the identity `x`.
pub open spec fn count_id(reg: Seq<IdentityV>, x: IdentityV) -> int
    decreases reg.len(),
{
    if reg.len() == 0 {
        0
    } else {
        (if reg[0] == x {
            1int
        } else {
            0int
        }) + count_id(reg.drop_first(), x)
    }
}

proof fn lemma_count_to_concat(a: Seq<DeliveryV>, b: Seq<DeliveryV>, x: IdentityV)
    ensures
        count_to(a + b, x) == count_to(a, x) + count_to(b, x),
    decreases a.len(),
{
    if a.len() == 0 {
        assert(a + b =~= b);
    } else {
        assert((a + b).drop_first() =~= a.drop_first() + b);
        lemma_count_to_concat(a.drop_first(), b, x);
    }
}

proof fn lemma_broadcast_count(reg: Seq<IdentityV>, from: IdentityV, body: Seq<u8>, x: IdentityV)
    requires
        distinct(reg),
    ensures
        count_to(broadcast_spec(reg, from, body), x) == if reg.contains(x) && x != from {
            1int
        } else {
            0int
        },
    decreases reg.len(),
{
    if reg.len() == 0 {
        assert(!reg.contains(x));
    } else {
        let t = reg.drop_first();
        let head = if reg[0] != from {
            seq![mk_delivery(from, reg[0], body)]
        } else {
            Seq::<DeliveryV>::empty()
        };
        assert(distinct(t)) by {
            assert(forall|i: int| 0 <= i < t.len() ==> t[i] == reg[i + 1]);
        }
        lemma_broadcast_count(t, from, body, x);
        lemma_count_to_concat(head, broadcast_spec(t, from, body), x);
        assert(count_to(head, x) == if reg[0] != from && reg[0] == x {
            1int
        } else {
            0int
        }) by {
            if reg[0] != from {
                assert(count_to(Seq::<DeliveryV>::empty(), x) == 0);
                assert(head.drop_first() =~= Seq::<DeliveryV>::empty());
                assert(count_to(head.drop_first(), x) == 0);
                assert(head[0].to == reg[0]);
            }
        }
        assert(broadcast_spec(reg, from, body) == head + broadcast_spec(t, from, body));
        if reg[0] == x {
            assert(!t.contains(x)) by {
                if t.contains(x) {
                    let j = choose|j: int| 0 <= j < t.len() && t[j] == x;
                    assert(reg[j + 1] == x);
                }
            }
            assert(reg.contains(x));
        } else {
            assert(reg.contains(x) <==> t.contains(x)) by {
                if reg.contains(x) {
                    let j = choose|j: int| 0 <= j < reg.len() && reg[j] == x;
                    assert(t[j - 1] == x);
                }
                if t.contains(x) {
                    let j = choose|j: int| 0 <= j < t.len() && t[j] == x;
                    assert(reg[j + 1] == x);
                }
            }
        }
    }
}

proof fn lemma_broadcast_targets(reg: Seq<IdentityV>, from: IdentityV, body: Seq<u8>)
    ensures
        forall|k: int|
            0 <= k < broadcast_spec(reg, from, body).len() ==> {
                let d = #[trigger] broadcast_spec(reg, from, body)[k];
                reg.contains(d.to) && d.to != from && d.payload == payload_for(from, d.to, body)
            },
    decreases reg.len(),
{
    if reg.len() > 0 {
        let t = reg.drop_first();
        lemma_broadcast_targets(t, from, body);
        assert forall|k: int|
            0 <= k < broadcast_spec(reg, from, body).len() implies {
            let d = #[trigger] broadcast_spec(reg, from, body)[k];
            reg.contains(d.to) && d.to != from && d.payload == payload_for(from, d.to, body)
        } by {
            let head = if reg[0] != from {
                seq![mk_delivery(from, reg[0], body)]
            } else {
                Seq::<DeliveryV>::empty()
            };
            let d = broadcast_spec(reg, from, body)[k];
            if k < head.len() {
                assert(d == mk_delivery(from, reg[0], body));
                assert(reg.contains(reg[0]));
            } else {
                assert(d == broadcast_spec(t, from, body)[k - head.len()]);
                assert(t.contains(d.to));
                let j = choose|j: int| 0 <= j < t.len() && t[j] == d.to;
                assert(reg[j + 1] == d.to);
            }
        }
    }
}

/// A unicast is delivered exactly once, to its addressee alone: when `b` is
/// registered and is not the broadcast token, a message from `a` addressed to
/// `b` alone owes exactly the one delivery to `b`, with the payload formatted
/// from `a` and the body — whoever else is registered gets nothing.
pub proof fn lemma_unicast_exactly_once(
    reg: Seq<IdentityV>,
    a: IdentityV,
    b: IdentityV,
    body: Seq<u8>,
)
    requires
        reg.contains(b),
        !is_all(b),
    ensures
        route_spec(reg, a, seq![b], body) == seq![mk_delivery(a, b, body)],
{
    let to = seq![b];
    assert(!has_all(to)) by {
        if has_all(to) {
            let j = choose|j: int| 0 <= j < to.len() && is_all(to[j]);
        }
    }
    assert(to.drop_first() =~= Seq::<IdentityV>::empty());
    assert(multicast_spec(reg, a, Seq::<IdentityV>::empty(), body) =~= Seq::<DeliveryV>::empty());
    assert(to[0] == b);
    assert(multicast_spec(reg, a, to, body) =~= seq![mk_delivery(a, b, body)] + multicast_spec(
        reg,
        a,
        to.drop_first(),
        body,
    ));
    assert(route_spec(reg, a, to, body) =~= seq![mk_delivery(a, b, body)]);
}

/// A two-recipient multicast reaches both addressees, in the order written,
/// and nobody else. With distinct addressees each is owed exactly one copy,
/// and any identity `x` — the sender included — is owed one exactly when it
/// is one of the two addressees. (With the same addressee written twice, that
/// addressee is owed both copies.)
pub proof fn lemma_multicast_pair(
    reg: Seq<IdentityV>,
    a: IdentityV,
    b: IdentityV,
    c: IdentityV,
    body: Seq<u8>,
)
    requires
        reg.contains(b),
        reg.contains(c),
        !is_all(b),
        !is_all(c),
    ensures
        route_spec(reg, a, seq![b, c], body) == seq![
            mk_delivery(a, b, body),
            mk_delivery(a, c, body),
        ],
        a != b && a != c ==> mk_delivery(a, b, body).to != a && mk_delivery(a, c, body).to != a,
        b != c ==> count_to(route_spec(reg, a, seq![b, c], body), b) == 1,
        b != c ==> count_to(route_spec(reg, a, seq![b, c], body), c) == 1,
        b != c ==> count_to(route_spec(reg, a, seq![b, c], body), a) == if a == b || a == c {
            1int
        } else {
            0int
        },
{
    let to = seq![b, c];
    assert(!has_all(to)) by {
        if has_all(to) {
            let j = choose|j: int| 0 <= j < to.len() && is_all(to[j]);
        }
    }
    assert(to.drop_first() =~= seq![c]);
    assert(to.drop_first().drop_first() =~= Seq::<IdentityV>::empty());
    assert(multicast_spec(reg, a, Seq::<IdentityV>::empty(), body) =~= Seq::<DeliveryV>::empty());
    assert(to.drop_first()[0] == c);
    assert(multicast_spec(reg, a, to.drop_first(), body) =~= seq![mk_delivery(a, c, body)]
        + multicast_spec(reg, a, to.drop_first().drop_first(), body));
    assert(multicast_spec(reg, a, to.drop_first(), body) =~= seq![mk_delivery(a, c, body)]);
    assert(route_spec(reg, a, to, body) =~= seq![mk_delivery(a, b, body), mk_delivery(a, c, body)]);
    if b != c {
        lemma_count_to_pair(mk_delivery(a, b, body), mk_delivery(a, c, body), b);
        lemma_count_to_pair(mk_delivery(a, b, body), mk_delivery(a, c, body), c);
        lemma_count_to_pair(mk_delivery(a, b, body), mk_delivery(a, c, body), a);
    }
}

proof fn lemma_count_to_pair(d1: DeliveryV, d2: DeliveryV, x: IdentityV)
    ensures
        count_to(seq![d1, d2], x) == (if d1.to == x {
            1int
        } else {
            0int
        }) + (if d2.to == x {
            1int
        } else {
            0int
        }),
{
    let r = seq![d1, d2];
    assert(r.drop_first() =~= seq![d2]);
    assert(r.drop_first().drop_first() =~= Seq::<DeliveryV>::empty());
    assert(count_to(r.drop_first().drop_first(), x) == 0);
    assert(count_to(r.drop_first(), x) == if d2.to == x {
        1int
    } else {
        0int
    });
}

/// A broadcast reaches every registered identity except the sender, each
/// exactly once, with the payload formatted from the sender and the body; an
/// identity not registered at that instant receives nothing — registering
/// later cannot retroactively receive it.
pub proof fn lemma_broadcast_exactly_once(
    reg: Seq<IdentityV>,
    a: IdentityV,
    to: Seq<IdentityV>,
    body: Seq<u8>,
    x: IdentityV,
)
    requires
        distinct(reg),
        has_all(to),
    ensures
        count_to(route_spec(reg, a, to, body), x) == if reg.contains(x) && x != a {
            1int
        } else {
            0int
        },
        forall|k: int|
            0 <= k < route_spec(reg, a, to, body).len() ==> {
                let d = #[trigger] route_spec(reg, a, to, body)[k];
                reg.contains(d.to) && d.to != a && d.payload == payload_for(a, d.to, body)
            },
{
    lemma_broadcast_count(reg, a, body, x);
    lemma_broadcast_targets(reg, a, body);
}

/// Registering an identity a second time changes nothing: the first
/// registration won, the registry keeps exactly one entry for it.
pub proof fn lemma_duplicate_registration(reg: Seq<IdentityV>, x: IdentityV)
    requires
        distinct(reg),
        reg.contains(x),
    ensures
        register_spec(reg, x) == reg,
        count_id(register_spec(reg, x), x) == 1,
{
    lemma_count_distinct(reg, x);
}

/// After a duplicate registration of `x` was ignored, a message from another
/// identity addressed to `x` alone is delivered exactly once, to the winning
/// entry's mailbox: the losing session keeps running but is invisible to the
/// registry and receives nothing. (`x` must not be the broadcast token, or
/// the message fans out instead of addressing `x`.)
pub proof fn lemma_duplicate_registration_routes_once(
    reg: Seq<IdentityV>,
    x: IdentityV,
    f: IdentityV,
    body: Seq<u8>,
)
    requires
        distinct(reg),
        reg.contains(x),
        !is_all(x),
        f != x,
    ensures
        register_spec(reg, x) == reg,
        count_id(register_spec(reg, x), x) == 1,
        route_spec(register_spec(reg, x), f, seq![x], body) == seq![mk_delivery(f, x, body)],
{
    lemma_duplicate_registration(reg, x);
    lemma_unicast_exactly_once(reg, f, x, body);
}

/// A registration, first or repeated, leaves exactly one entry for the
/// identity and a well-formed registry.
pub proof fn lemma_registration_unique(reg: Seq<IdentityV>, x: IdentityV)
    requires
        distinct(reg),
    ensures
        distinct(register_spec(reg, x)),
        count_id(register_spec(reg, x), x) == 1,
{
    if reg.contains(x) {
        lemma_count_distinct(reg, x);
    } else {
        let r = reg.push(x);
        assert(distinct(r)) by {
            assert forall|i: int, j: int|
                0 <= i < j < r.len() implies #[trigger] r[i] != #[trigger] r[j] by {
                if j == reg.len() {
                    assert(r[i] == reg[i]);
                }
            }
        }
        lemma_count_distinct(r, x);
        assert(r.contains(x)) by {
            assert(r[reg.len() as int] == x);
        }
    }
}

proof fn lemma_count_distinct(reg: Seq<IdentityV>, x: IdentityV)
    requires
        distinct(reg),
    ensures
        count_id(reg, x) == if reg.contains(x) {
            1int
        } else {
            0int
        },
    decreases reg.len(),
{
    if reg.len() == 0 {
        assert(!reg.contains(x));
    } else {
        let t = reg.drop_first();
        assert(distinct(t)) by {
            assert(forall|i: int| 0 <= i < t.len() ==> t[i] == reg[i + 1]);
        }
        lemma_count_distinct(t, x);
        if reg[0] == x {
            assert(!t.contains(x)) by {
                if t.contains(x) {
                    let j = choose|j: int| 0 <= j < t.len() && t[j] == x;
                    assert(reg[j + 1] == x);
                }
            }
            assert(reg.contains(x));
        } else {
            assert(reg.contains(x) <==> t.contains(x)) by {
                if reg.contains(x) {
                    let j = choose|j: int| 0 <= j < reg.len() && reg[j] == x;
                    assert(t[j - 1] == x);
                }
                if t.contains(x) {
                    let j = choose|j: int| 0 <= j < t.len() && t[j] == x;
                    assert(reg[j + 1] == x);
                }
            }
        }
    }
}

/// A line without a colon produces no routing intent, whoever sends it.
pub proof fn lemma_colonless_line_no_intent(from: IdentityV, line: Seq<u8>)
    requires
        find_byte(line, 58) is None,
    ensures
        line_intent_spec(from, line) is None,
{
}

/// On teardown every still-registered identity is owed exactly one shutdown
/// notice, and nothing is owed to anyone else; every notice carries the
/// shutdown payload and goes to a registered identity.
pub proof fn lemma_shutdown_notices(reg: Seq<IdentityV>, x: IdentityV)
    requires
        distinct(reg),
    ensures
        count_to(notices_spec(reg), x) == if reg.contains(x) {
            1int
        } else {
            0int
        },
        forall|k: int|
            0 <= k < notices_spec(reg).len() ==> (#[trigger] notices_spec(reg)[k]).payload
                == shutdown_notice() && reg.contains(notices_spec(reg)[k].to),
    decreases reg.len(),
{
    if reg.len() == 0 {
        assert(!reg.contains(x));
    } else {
        let t = reg.drop_first();
        assert(distinct(t)) by {
            assert(forall|i: int| 0 <= i < t.len() ==> t[i] == reg[i + 1]);
        }
        lemma_shutdown_notices(t, x);
        assert(notices_spec(reg).drop_first() =~= notices_spec(t));
        assert(count_to(notices_spec(reg), x) == (if reg[0] == x {
            1int
        } else {
            0int
        }) + count_to(notices_spec(t), x));
        if reg[0] == x {
            assert(!t.contains(x)) by {
                if t.contains(x) {
                    let j = choose|j: int| 0 <= j < t.len() && t[j] == x;
                    assert(reg[j + 1] == x);
                }
            }
            assert(reg.contains(x));
        } else {
            assert(reg.contains(x) <==> t.contains(x)) by {
                if reg.contains(x) {
                    let j = choose|j: int| 0 <= j < reg.len() && reg[j] == x;
                    assert(t[j - 1] == x);
                }
                if t.contains(x) {
                    let j = choose|j: int| 0 <= j < t.len() && t[j] == x;
                    assert(reg[j + 1] == x);
                }
            }
        }
        assert forall|k: int|
            0 <= k < notices_spec(reg).len() implies (#[trigger] notices_spec(reg)[k]).payload
            == shutdown_notice() && reg.contains(notices_spec(reg)[k].to) by {
            if k == 0 {
                assert(notices_spec(reg)[0].to == reg[0]);
                assert(reg.contains(reg[0]));
            } else {
                assert(notices_spec(reg)[k] == notices_spec(t)[k - 1]);
                assert(t.contains(notices_spec(t)[k - 1].to));
                let j = choose|j: int| 0 <= j < t.len() && t[j] == notices_spec(t)[k - 1].to;
                assert(reg[j + 1] == notices_spec(t)[k - 1].to);
            }
        }
    }
}

/// The round trip is byte-exact: a shell-channel recipient receives the body
/// bytes themselves; a line-transport recipient receives the body unchanged
/// between the `"<from>: "` annotation and the final newline.
pub proof fn lemma_payload_round_trip(from: IdentityV, to: IdentityV, body: Seq<u8>)
    ensures
        to is Id ==> payload_for(from, to, body) == body,
        to is Name ==> {
            let p = payload_for(from, to, body);
            let f = identity_text(from);
            &&& p.len() == f.len() + 3 + body.len()
            &&& p.subrange(0, f.len() as int) == f
            &&& p.subrange(f.len() as int, f.len() + 2int) == seq![58u8, 32u8]
            &&& p.subrange(f.len() + 2int, p.len() - 1) == body
            &&& p[p.len() - 1] == 10u8
        },
{
    if to is Name {
        let p = payload_for(from, to, body);
        let f = identity_text(from);
        assert(p =~= f + seq![58u8, 32u8] + body + seq![10u8]);
        assert(p.subrange(0, f.len() as int) =~= f);
        assert(p.subrange(f.len() as int, f.len() + 2int) =~= seq![58u8, 32u8]);
        assert(p.subrange(f.len() + 2int, p.len() - 1) =~= body);
    }
}

} // verus!
