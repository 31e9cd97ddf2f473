//! The router: the single serialized authority over the identity registry.
//! Sessions submit [`Intent`] values through one ordered channel; the router
//! alone mutates the registry and decides, for every message, exactly which
//! mailboxes receive which payload. Mailbox queues and sockets live outside
//! the library; a [`Delivery`] names the recipient and the payload bytes that
//! must be enqueued on its mailbox, in order.

use vstd::prelude::*;
use vstd::slice::slice_to_vec;
use vstd::string::StringSliceAdditionalSpecFns;
use crate::identity::clone_identity;
use crate::identity::id_eq;
use crate::identity::identity_is_all;
use crate::identity::identity_text;
use crate::identity::is_all;
use crate::identity::render_identity;
use crate::identity::Identity;
use crate::identity::IdentityV;
use crate::text::append_bytes;

verus! {

/// A structured instruction from a session handler to the router.
pub enum Intent {
    /// Register a new identity; its mailbox handle stays with the caller.
    NewClient { identity: Identity },
    /// Deliver `body`, annotated with `from`, to every registered recipient.
    Message { from: Identity, to: Vec<Identity>, body: Vec<u8> },
    /// Remove an identity from the registry (a `/quit`, or stream end).
    Disconnect { identity: Identity },
}

/// The mathematical value of an [`Intent`].
pub enum IntentV {
    NewClient { identity: IdentityV },
    Message { from: IdentityV, to: Seq<IdentityV>, body: Seq<u8> },
    Disconnect { identity: IdentityV },
}

/// The views of a sequence of identities.
pub open spec fn id_views(s: Seq<Identity>) -> Seq<IdentityV> {
    s.map_values(|x: Identity| x@)
}

impl View for Intent {
    type V = IntentV;

    open spec fn view(&self) -> IntentV {
        match self {
            Intent::NewClient { identity } => IntentV::NewClient { identity: identity@ },
            Intent::Message { from, to, body } => IntentV::Message {
                from: from@,
                to: id_views(to@),
                body: body@,
            },
            Intent::Disconnect { identity } => IntentV::Disconnect { identity: identity@ },
        }
    }
}

/// One payload owed to one registered identity's mailbox.
pub struct Delivery {
    /// Whose mailbox receives the payload.
    pub to: Identity,
    /// The exact bytes to enqueue.
    pub payload: Vec<u8>,
}

/// The mathematical value of a [`Delivery`].
pub struct DeliveryV {
    pub to: IdentityV,
    pub payload: Seq<u8>,
}

impl View for Delivery {
    type V = DeliveryV;

    open spec fn view(&self) -> DeliveryV {
        DeliveryV { to: self.to@, payload: self.payload@ }
    }
}

/// The views of a sequence of deliveries.
pub open spec fn delivery_views(s: Seq<Delivery>) -> Seq<DeliveryV> {
    s.map_values(|d: Delivery| d@)
}

/// No identity occurs twice.
pub open spec fn distinct(reg: Seq<IdentityV>) -> bool {
    forall|i: int, j: int| 0 <= i < j < reg.len() ==> #[trigger] reg[i] != #[trigger] reg[j]
}

/// The bytes enqueued for `to` when `from` sends `body`: a line-transport
/// recipient receives `"<from>: <body>\n"`; a shell-channel recipient
/// receives the raw body bytes.
pub open spec fn payload_for(from: IdentityV, to: IdentityV, body: Seq<u8>) -> Seq<u8> {
    match to {
        IdentityV::Name(_) => identity_text(from) + seq![58u8, 32u8] + body + seq![10u8],
        IdentityV::Id(_) => body,
    }
}

/// The delivery owed to `to` when `from` sends `body`.
pub open spec fn mk_delivery(from: IdentityV, to: IdentityV, body: Seq<u8>) -> DeliveryV {
    DeliveryV { to: to, payload: payload_for(from, to, body) }
}

/// Broadcast: one delivery per registered identity, in registry order, the
/// sender excepted.
pub open spec fn broadcast_spec(reg: Seq<IdentityV>, from: IdentityV, body: Seq<u8>) -> Seq<
    DeliveryV,
>
    decreases reg.len(),
{
    if reg.len() == 0 {
        Seq::empty()
    } else {
        let head = if reg[0] != from {
            seq![mk_delivery(from, reg[0], body)]
        } else {
            Seq::<DeliveryV>::empty()
        };
        head + broadcast_spec(reg.drop_first(), from, body)
    }
}

/// Multicast: one delivery per entry of `to` that is registered, in the order
/// written; unknown recipients are skipped without error.
pub open spec fn multicast_spec(
    reg: Seq<IdentityV>,
    from: IdentityV,
    to: Seq<IdentityV>,
    body: Seq<u8>,
) -> Seq<DeliveryV>
    decreases to.len(),
{
    if to.len() == 0 {
        Seq::empty()
    } else {
        let head = if reg.contains(to[0]) {
            seq![mk_delivery(from, to[0], body)]
        } else {
            Seq::<DeliveryV>::empty()
        };
        head + multicast_spec(reg, from, to.drop_first(), body)
    }
}

/// Whether a recipient list invokes the broadcast address.
pub open spec fn has_all(to: Seq<IdentityV>) -> bool {
    exists|i: int| 0 <= i < to.len() && is_all(#[trigger] to[i])
}

/// The deliveries a message intent owes: a recipient list containing `all`
/// fans out to everyone but the sender; otherwise each listed recipient that
/// is registered receives one copy.
pub open spec fn route_spec(
    reg: Seq<IdentityV>,
    from: IdentityV,
    to: Seq<IdentityV>,
    body: Seq<u8>,
) -> Seq<DeliveryV> {
    if has_all(to) {
        broadcast_spec(reg, from, body)
    } else {
        multicast_spec(reg, from, to, body)
    }
}

/// The registry after a registration attempt: a duplicate identity is
/// silently ignored, the late joiner is never added.
pub open spec fn register_spec(reg: Seq<IdentityV>, id: IdentityV) -> Seq<IdentityV> {
    if reg.contains(id) {
        reg
    } else {
        reg.push(id)
    }
}

/// The registry with every occurrence of `id` removed (at most one exists
/// when the registry is well formed).
pub open spec fn remove_spec(reg: Seq<IdentityV>, id: IdentityV) -> Seq<IdentityV>
    decreases reg.len(),
{
    if reg.len() == 0 {
        Seq::empty()
    } else if reg[0] == id {
        remove_spec(reg.drop_first(), id)
    } else {
        seq![reg[0]] + remove_spec(reg.drop_first(), id)
    }
}

/// The final payload sent to every still-registered mailbox before the router
/// exits.
pub open spec fn shutdown_notice() -> Seq<u8> {
    "Admin is shutting down the server...".spec_bytes()
}

/// The shutdown notices owed on router teardown: one per registered identity,
/// in registry order.
pub open spec fn notices_spec(reg: Seq<IdentityV>) -> Seq<DeliveryV> {
    reg.map_values(|r: IdentityV| DeliveryV { to: r, payload: shutdown_notice() })
}

/// The router's registry and the decisions over it.
pub struct Router {
    clients: Vec<Identity>,
}

/// What one processed intent did: whether a registration or removal took
/// effect, and the deliveries owed to mailboxes, in order.
pub struct StepOutcome {
    /// A `NewClient` intent inserted its identity (false on a duplicate).
    pub registered: bool,
    /// A `Disconnect` intent removed its identity.
    pub removed: bool,
    /// The payloads owed to mailboxes, in delivery order.
    pub deliveries: Vec<Delivery>,
}

impl Router {
    /// The registered identities, in registration order.
    pub closed spec fn registry(&self) -> Seq<IdentityV> {
        id_views(self.clients@)
    }

    /// Well-formedness: at most one live entry per identity at any instant.
    pub open spec fn wf(&self) -> bool {
        distinct(self.registry())
    }

    /// An empty registry.
    pub fn new() -> (r: Router)
        ensures
            r.wf(),
            r.registry() == Seq::<IdentityV>::empty(),
    {
        let r = Router { clients: Vec::new() };
        proof {
            assert(r.registry() =~= Seq::<IdentityV>::empty());
        }
        r
    }

    /// Whether `id` currently owns a registry entry.
    pub fn is_registered(&self, id: &Identity) -> (r: bool)
        ensures
            r == self.registry().contains(id@),
    {
        let mut k: usize = 0;
        while k < self.clients.len()
            invariant
                0 <= k <= self.clients@.len(),
                forall|j: int| 0 <= j < k ==> self.registry()[j] != id@,
                self.registry().len() == self.clients@.len(),
            decreases self.clients@.len() - k,
        {
            if id_eq(&self.clients[k], id) {
                assert(self.registry()[k as int] == id@);
                return true;
            }
            k = k + 1;
        }
        assert(!self.registry().contains(id@)) by {
            if self.registry().contains(id@) {
                let j = choose|j: int|
                    0 <= j < self.registry().len() && self.registry()[j] == id@;
            }
        }
        false
    }

    /// Process a `NewClient` intent: a fresh identity is appended; an identity
    /// already present is ignored and the registry is unchanged.
    pub fn register(&mut self, id: Identity) -> (added: bool)
        requires
            old(self).wf(),
        ensures
            final(self).wf(),
            final(self).registry() == register_spec(old(self).registry(), id@),
            added == !old(self).registry().contains(id@),
    {
        if self.is_registered(&id) {
            false
        } else {
            let ghost before = self.registry();
            self.clients.push(id);
            proof {
                assert(self.registry() =~= before.push(id@));
                assert forall|i: int, j: int|
                    0 <= i < j < self.registry().len() implies self.registry()[i]
                    != self.registry()[j] by {
                    if j == before.len() {
                        assert(!before.contains(id@));
                        assert(self.registry()[i] == before[i]);
                    }
                }
            }
            true
        }
    }

    /// Process a `Disconnect` intent: the identity's entry, if any, leaves the
    /// registry.
    pub fn deregister(&mut self, id: &Identity) -> (removed: bool)
        requires
            old(self).wf(),
        ensures
            final(self).wf(),
            final(self).registry() == remove_spec(old(self).registry(), id@),
            removed == old(self).registry().contains(id@),
    {
        let ghost before = self.registry();
        let mut k: usize = 0;
        while k < self.clients.len()
            invariant
                0 <= k <= self.clients@.len(),
                forall|j: int| 0 <= j < k ==> self.registry()[j] != id@,
                self.registry().len() == self.clients@.len(),
                self.registry() == before,
                before == old(self).registry(),
                self.wf(),
            decreases self.clients@.len() - k,
        {
            if id_eq(&self.clients[k], id) {
                assert(before[k as int] == id@);
                self.clients.remove(k);
                proof {
                    assert(self.registry() =~= before.remove(k as int));
                    assert forall|j: int|
                        0 <= j < before.len() && j != k implies before[j] != id@ by {
                        if j > k {
                            assert(before[k as int] != before[j]);
                        }
                    }
                    lemma_remove_spec_at(before, id@, k as int);
                    assert(before.contains(id@)) by {
                        assert(before[k as int] == id@);
                    }
                    lemma_remove_preserves_distinct(before, k as int);
                }
                return true;
            }
            k = k + 1;
        }
        proof {
            assert forall|j: int| 0 <= j < before.len() implies before[j] != id@ by {}
            lemma_remove_spec_absent(before, id@);
            assert(!before.contains(id@)) by {
                if before.contains(id@) {
                    let j = choose|j: int| 0 <= j < before.len() && before[j] == id@;
                }
            }
        }
        false
    }

    /// The deliveries owed when `from` sends `body` to the recipient list
    /// `to`. The registry is only read; payload order follows the registry
    /// for a broadcast and the written list otherwise.
    pub fn route(&self, from: &Identity, to: &Vec<Identity>, body: &Vec<u8>) -> (out: Vec<
        Delivery,
    >)
        ensures
            delivery_views(out@) == route_spec(self.registry(), from@, id_views(to@), body@),
    {
        if recipients_have_all(to) {
            self.broadcast(from, body)
        } else {
            self.multicast(from, to, body)
        }
    }

    fn broadcast(&self, from: &Identity, body: &Vec<u8>) -> (out: Vec<Delivery>)
        ensures
            delivery_views(out@) == broadcast_spec(self.registry(), from@, body@),
    {
        let ghost reg = self.registry();
        let mut out: Vec<Delivery> = Vec::new();
        let mut k: usize = 0;
        proof {
            assert(reg.skip(0) =~= reg);
            assert(delivery_views(out@) =~= Seq::<DeliveryV>::empty());
        }
        while k < self.clients.len()
            invariant
                0 <= k <= self.clients@.len(),
                reg == self.registry(),
                reg.len() == self.clients@.len(),
                delivery_views(out@) + broadcast_spec(reg.skip(k as int), from@, body@)
                    =~= broadcast_spec(reg, from@, body@),
            decreases self.clients@.len() - k,
        {
            let ghost pre = reg.skip(k as int);
            proof {
                assert(pre[0] == reg[k as int]);
                assert(pre.drop_first() =~= reg.skip(k + 1 as int));
            }
            if !id_eq(&self.clients[k], from) {
                let ghost before = delivery_views(out@);
                let payload = format_payload(from, &self.clients[k], body);
                out.push(Delivery { to: clone_identity(&self.clients[k]), payload });
                proof {
                    assert(delivery_views(out@) =~= before.push(
                        mk_delivery(from@, reg[k as int], body@),
                    ));
                }
            }
            k = k + 1;
        }
        proof {
            assert(reg.skip(reg.len() as int) =~= Seq::<IdentityV>::empty());
        }
        out
    }

    fn multicast(&self, from: &Identity, to: &Vec<Identity>, body: &Vec<u8>) -> (out: Vec<
        Delivery,
    >)
        ensures
            delivery_views(out@) == multicast_spec(
                self.registry(),
                from@,
                id_views(to@),
                body@,
            ),
    {
        let ghost reg = self.registry();
        let ghost tov = id_views(to@);
        let mut out: Vec<Delivery> = Vec::new();
        let mut k: usize = 0;
        proof {
            assert(tov.skip(0) =~= tov);
            assert(delivery_views(out@) =~= Seq::<DeliveryV>::empty());
        }
        while k < to.len()
            invariant
                0 <= k <= to@.len(),
                reg == self.registry(),
                tov == id_views(to@),
                tov.len() == to@.len(),
                delivery_views(out@) + multicast_spec(reg, from@, tov.skip(k as int), body@)
                    =~= multicast_spec(reg, from@, tov, body@),
        decreases to@.len() - k,
        {
            let ghost pre = tov.skip(k as int);
            proof {
                assert(pre[0] == tov[k as int]);
                assert(pre.drop_first() =~= tov.skip(k + 1 as int));
            }
            if self.is_registered(&to[k]) {
                let ghost before = delivery_views(out@);
                let payload = format_payload(from, &to[k], body);
                out.push(Delivery { to: clone_identity(&to[k]), payload });
                proof {
                    assert(delivery_views(out@) =~= before.push(
                        mk_delivery(from@, tov[k as int], body@),
                    ));
                }
            }
            k = k + 1;
        }
        proof {
            assert(tov.skip(tov.len() as int) =~= Seq::<IdentityV>::empty());
        }
        out
    }

    /// The notices owed on teardown: exactly one shutdown payload per
    /// still-registered identity, in registry order.
    pub fn shutdown_notices(&self) -> (out: Vec<Delivery>)
        ensures
            delivery_views(out@) == notices_spec(self.registry()),
    {
        let ghost reg = self.registry();
        let notice = shutdown_notice_bytes();
        let mut out: Vec<Delivery> = Vec::new();
        let mut k: usize = 0;
        while k < self.clients.len()
            invariant
                0 <= k <= self.clients@.len(),
                reg == self.registry(),
                reg.len() == self.clients@.len(),
                notice@ == shutdown_notice(),
                delivery_views(out@) =~= notices_spec(reg).take(k as int),
            decreases self.clients@.len() - k,
        {
            let ghost before = delivery_views(out@);
            out.push(
                Delivery {
                    to: clone_identity(&self.clients[k]),
                    payload: crate::identity::clone_bytes(&notice),
                },
            );
            proof {
                assert(delivery_views(out@) =~= before.push(
                    DeliveryV { to: reg[k as int], payload: shutdown_notice() },
                ));
                assert(notices_spec(reg).take(k + 1 as int) =~= notices_spec(reg).take(
                    k as int,
                ).push(notices_spec(reg)[k as int]));
            }
            k = k + 1;
        }
        proof {
            assert(notices_spec(reg).take(reg.len() as int) =~= notices_spec(reg));
        }
        out
    }

    /// The numeric ids currently registered, in registration order.
    pub fn numeric_ids(&self) -> (out: Vec<u64>)
        ensures
            out@ == numeric_ids_spec(self.registry()),
    {
        let ghost reg = self.registry();
        let mut out: Vec<u64> = Vec::new();
        let mut k: usize = 0;
        proof {
            assert(reg.skip(0) =~= reg);
        }
        while k < self.clients.len()
            invariant
                0 <= k <= self.clients@.len(),
                reg == self.registry(),
                reg.len() == self.clients@.len(),
                out@ + numeric_ids_spec(reg.skip(k as int)) =~= numeric_ids_spec(reg),
            decreases self.clients@.len() - k,
        {
            let ghost pre = reg.skip(k as int);
            proof {
                assert(pre[0] == reg[k as int]);
                assert(pre.drop_first() =~= reg.skip(k + 1 as int));
            }
            match &self.clients[k] {
                Identity::Id(i) => {
                    out.push(*i);
                },
                Identity::Name(_) => {},
            }
            k = k + 1;
        }
        proof {
            assert(reg.skip(reg.len() as int) =~= Seq::<IdentityV>::empty());
        }
        out
    }

    /// The in-band response owed to a `/clients` query issued by `caller`:
    /// the registered numeric ids, in registration order, and the caller's
    /// own id.
    pub fn clients_response(&self, caller: u64) -> (r: Vec<u8>)
        ensures
            r@ == crate::shell_proto::clients_response_spec(
                numeric_ids_spec(self.registry()),
                caller,
            ),
    {
        let ids = self.numeric_ids();
        crate::shell_proto::clients_response_bytes(&ids, caller)
    }

    /// Process one intent: the serialized step of the router loop. Exhaustive
    /// over the intent variants; registry mutation happens only here and in
    /// no other component.
    pub fn step(&mut self, intent: Intent) -> (out: StepOutcome)
        requires
            old(self).wf(),
        ensures
            final(self).wf(),
            match intent@ {
                IntentV::NewClient { identity } => {
                    &&& final(self).registry() == register_spec(old(self).registry(), identity)
                    &&& out.registered == !old(self).registry().contains(identity)
                    &&& !out.removed
                    &&& out.deliveries@.len() == 0
                },
                IntentV::Message { from, to, body } => {
                    &&& final(self).registry() == old(self).registry()
                    &&& delivery_views(out.deliveries@) == route_spec(
                        old(self).registry(),
                        from,
                        to,
                        body,
                    )
                    &&& !out.registered
                    &&& !out.removed
                },
                IntentV::Disconnect { identity } => {
                    &&& final(self).registry() == remove_spec(old(self).registry(), identity)
                    &&& out.removed == old(self).registry().contains(identity)
                    &&& !out.registered
                    &&& out.deliveries@.len() == 0
                },
            },
    {
        match intent {
            Intent::NewClient { identity } => {
                let registered = self.register(identity);
                StepOutcome { registered, removed: false, deliveries: Vec::new() }
            },
            Intent::Message { from, to, body } => {
                let deliveries = self.route(&from, &to, &body);
                StepOutcome { registered: false, removed: false, deliveries }
            },
            Intent::Disconnect { identity } => {
                let removed = self.deregister(&identity);
                StepOutcome { registered: false, removed, deliveries: Vec::new() }
            },
        }
    }
}

/// The numeric ids among the registered identities, in order.
pub open spec fn numeric_ids_spec(reg: Seq<IdentityV>) -> Seq<u64>
    decreases reg.len(),
{
    if reg.len() == 0 {
        Seq::empty()
    } else {
        let head = match reg[0] {
            IdentityV::Id(i) => seq![i],
            IdentityV::Name(_) => Seq::<u64>::empty(),
        };
        head + numeric_ids_spec(reg.drop_first())
    }
}

/// Whether a recipient list names the broadcast address `all`.
pub fn recipients_have_all(to: &Vec<Identity>) -> (r: bool)
    ensures
        r == has_all(id_views(to@)),
{
    let mut k: usize = 0;
    while k < to.len()
        invariant
            0 <= k <= to@.len(),
            forall|j: int| 0 <= j < k ==> !is_all(#[trigger] id_views(to@)[j]),
        decreases to@.len() - k,
    {
        if identity_is_all(&to[k]) {
            assert(is_all(id_views(to@)[k as int]));
            return true;
        }
        k = k + 1;
    }
    assert(!has_all(id_views(to@))) by {
        if has_all(id_views(to@)) {
            let j = choose|j: int| 0 <= j < id_views(to@).len() && is_all(#[trigger] id_views(to@)[j]);
        }
    }
    false
}

/// Build the payload owed to `to` when `from` sends `body`.
pub fn format_payload(from: &Identity, to: &Identity, body: &Vec<u8>) -> (r: Vec<u8>)
    ensures
        r@ == payload_for(from@, to@, body@),
{
    match to {
        Identity::Id(_) => crate::identity::clone_bytes(body),
        Identity::Name(_) => {
            let mut r = render_identity(from);
            r.push(58);
            r.push(32);
            append_bytes(&mut r, body);
            r.push(10);
            proof {
                assert(r@ =~= identity_text(from@) + seq![58u8, 32u8] + body@ + seq![10u8]);
            }
            r
        },
    }
}

/// The shutdown notice payload.
pub fn shutdown_notice_bytes() -> (r: Vec<u8>)
    ensures
        r@ == shutdown_notice(),
{
    slice_to_vec("Admin is shutting down the server...".as_bytes())
}

proof fn lemma_remove_spec_absent(reg: Seq<IdentityV>, id: IdentityV)
    requires
        forall|j: int| 0 <= j < reg.len() ==> reg[j] != id,
    ensures
        remove_spec(reg, id) == reg,
    decreases reg.len(),
{
    if reg.len() > 0 {
        let t = reg.drop_first();
        assert(forall|j: int| 0 <= j < t.len() ==> t[j] != id);
        lemma_remove_spec_absent(t, id);
        assert(seq![reg[0]] + t =~= reg);
    }
}

proof fn lemma_remove_spec_at(reg: Seq<IdentityV>, id: IdentityV, k: int)
    requires
        0 <= k < reg.len(),
        reg[k] == id,
        forall|j: int| 0 <= j < reg.len() && j != k ==> reg[j] != id,
    ensures
        remove_spec(reg, id) == reg.remove(k),
    decreases k,
{
    if k == 0 {
        let t = reg.drop_first();
        assert(forall|j: int| 0 <= j < t.len() ==> t[j] != id);
        lemma_remove_spec_absent(t, id);
        assert(reg.remove(0) =~= t);
    } else {
        let t = reg.drop_first();
        assert(t[k - 1] == id);
        assert(forall|j: int| 0 <= j < t.len() && j != k - 1 ==> t[j] != id);
        lemma_remove_spec_at(t, id, k - 1);
        assert(reg.remove(k) =~= seq![reg[0]] + t.remove(k - 1));
    }
}

proof fn lemma_remove_preserves_distinct(reg: Seq<IdentityV>, k: int)
    requires
        0 <= k < reg.len(),
        distinct(reg),
    ensures
        distinct(reg.remove(k)),
{
    let r = reg.remove(k);
    assert forall|i: int, j: int| 0 <= i < j < r.len() implies #[trigger] r[i] != #[trigger] r[j] by {
        let i0 = if i < k {
            i
        } else {
            i + 1
        };
        let j0 = if j < k {
            j
        } else {
            j + 1
        };
        assert(r[i] == reg[i0]);
        assert(r[j] == reg[j0]);
    }
}

} // verus!
