//! The relay registry: channel names mapped to active notification sinks,
//! with one buffered payload per vacant name.
//!
//! `S` is the sink type and `P` the payload type; both are opaque here. The
//! registry only decides, for each operation, what changes and what the
//! caller must do next — invoking a sink is the caller's business, outside
//! any lock it may hold around the registry.

use crate::table::NameTable;
use vstd::prelude::*;

verus! {

/// What `register_component` did.
#[derive(Debug, PartialEq, Eq)]
pub enum RegisterOutcome<P> {
    /// The sink was installed. If a payload was buffered for the name, it is
    /// handed over here as the receiver's initial content.
    Registered(Option<P>),
    /// The name already had an active sink: the prior registration is kept,
    /// the new sink is not installed. An anomaly to report.
    AlreadyRegistered,
}

/// What `unregister_component` did.
#[derive(Debug, PartialEq, Eq)]
pub enum UnregisterOutcome {
    /// The active registration was removed.
    Unregistered,
    /// The name had no active registration: nothing changed. An anomaly to
    /// report.
    NotRegistered,
}

/// What `send` did.
#[derive(Debug, PartialEq, Eq)]
pub enum SendOutcome<P> {
    /// An active sink exists for the name: the registry is unchanged and the
    /// caller must now invoke that sink with this payload.
    Deliver(P),
    /// No active sink: the payload was buffered for a future registration.
    Buffered,
    /// No active sink, and a payload was already buffered: the new payload
    /// took its place, and the older one is handed back here, discarded. An
    /// anomaly to report.
    Replaced(P),
}

/// The relay registry: active sinks by name, and pending payloads for names
/// with no active sink yet.
pub struct ElsewhereService<S, P> {
    callbacks: NameTable<S>,
    cached_calls: NameTable<P>,
}

impl<S, P> ElsewhereService<S, P> {
    /// The active registrations: channel name to sink.
    pub closed spec fn active(self) -> Map<Seq<char>, S> {
        self.callbacks@
    }

    /// The buffered payloads: channel name to the most recent payload sent
    /// while the name had no active sink.
    pub closed spec fn pending(self) -> Map<Seq<char>, P> {
        self.cached_calls@
    }

    /// Each name holds at most one sink and at most one buffered payload,
    /// and no name is both active and pending.
    pub closed spec fn wf(self) -> bool {
        &&& self.callbacks.wf()
        &&& self.cached_calls.wf()
        &&& forall|k: Seq<char>|
            #[trigger] self.callbacks@.contains_key(k) ==> !self.cached_calls@.contains_key(k)
    }

    /// How `register_component` relates the registry before the call, the
    /// registry after it, and its outcome.
    pub open spec fn register_post(pre: Self, post: Self, name: Seq<char>, sink: S, r: RegisterOutcome<P>) -> bool {
        if pre.active().contains_key(name) {
            &&& post == pre
            &&& r == RegisterOutcome::<P>::AlreadyRegistered
        } else {
            &&& post.active() == pre.active().insert(name, sink)
            &&& post.pending() == pre.pending().remove(name)
            &&& r == RegisterOutcome::Registered(
                if pre.pending().contains_key(name) {
                    Some(pre.pending()[name])
                } else {
                    None::<P>
                },
            )
        }
    }

    /// How `unregister_component` relates the registry before the call, the
    /// registry after it, and its outcome.
    pub open spec fn unregister_post(pre: Self, post: Self, name: Seq<char>, r: UnregisterOutcome) -> bool {
        if pre.active().contains_key(name) {
            &&& post.active() == pre.active().remove(name)
            &&& post.pending() == pre.pending()
            &&& r == UnregisterOutcome::Unregistered
        } else {
            &&& post == pre
            &&& r == UnregisterOutcome::NotRegistered
        }
    }

    /// How `send` relates the registry before the call, the registry after
    /// it, and its outcome.
    pub open spec fn send_post(pre: Self, post: Self, name: Seq<char>, payload: P, r: SendOutcome<P>) -> bool {
        if pre.active().contains_key(name) {
            &&& post == pre
            &&& r == SendOutcome::Deliver(payload)
        } else {
            &&& post.active() == pre.active()
            &&& post.pending() == pre.pending().insert(name, payload)
            &&& r == (if pre.pending().contains_key(name) {
                SendOutcome::Replaced(pre.pending()[name])
            } else {
                SendOutcome::<P>::Buffered
            })
        }
    }

    /// A fresh registry: no active sinks, nothing buffered.
    pub fn new() -> (s: Self)
        ensures
            s.wf(),
            s.active() == Map::<Seq<char>, S>::empty(),
            s.pending() == Map::<Seq<char>, P>::empty(),
    {
        ElsewhereService { callbacks: NameTable::new(), cached_calls: NameTable::new() }
    }

    /// Registers `sink` under `name`.
    ///
    /// If `name` is vacant, the sink is installed and any payload buffered
    /// for `name` is removed and handed back as the initial content. If
    /// `name` already has an active sink, nothing changes and the conflict
    /// is reported in the outcome.
    pub fn register_component(&mut self, name: &str, sink: S) -> (r: RegisterOutcome<P>)
        requires
            old(self).wf(),
        ensures
            final(self).wf(),
            Self::register_post(*old(self), *final(self), name@, sink, r),
    {
        if self.callbacks.contains(name) {
            RegisterOutcome::AlreadyRegistered
        } else {
            self.callbacks.insert(name, sink);
            let pending = self.cached_calls.remove(name);
            proof {
                assert forall|k: Seq<char>| #[trigger] self.callbacks@.contains_key(k)
                    implies !self.cached_calls@.contains_key(k) by {
                    if k != name@ {
                        assert(old(self).callbacks@.contains_key(k));
                    }
                }
            }
            RegisterOutcome::Registered(pending)
        }
    }

    /// Removes the active registration for `name`.
    ///
    /// Buffered payloads are untouched. If `name` has no active sink,
    /// nothing changes and the anomaly is reported in the outcome.
    pub fn unregister_component(&mut self, name: &str) -> (r: UnregisterOutcome)
        requires
            old(self).wf(),
        ensures
            final(self).wf(),
            Self::unregister_post(*old(self), *final(self), name@, r),
    {
        if self.callbacks.contains(name) {
            self.callbacks.remove(name);
            proof {
                assert forall|k: Seq<char>| #[trigger] self.callbacks@.contains_key(k)
                    implies !self.cached_calls@.contains_key(k) by {
                    assert(old(self).callbacks@.contains_key(k));
                }
            }
            UnregisterOutcome::Unregistered
        } else {
            UnregisterOutcome::NotRegistered
        }
    }

    /// Routes `payload` toward the receiver named `name`.
    ///
    /// If a sink is active for `name`, the registry is left untouched and
    /// the payload comes back as `Deliver`: the caller must invoke the sink
    /// with it (outside any lock, so a sink may re-enter the registry). If
    /// no sink is active, the payload is buffered for the next registration,
    /// replacing — and reporting — any payload already buffered there.
    pub fn send(&mut self, name: &str, payload: P) -> (r: SendOutcome<P>)
        requires
            old(self).wf(),
        ensures
            final(self).wf(),
            Self::send_post(*old(self), *final(self), name@, payload, r),
    {
        if self.callbacks.contains(name) {
            SendOutcome::Deliver(payload)
        } else {
            let prior = self.cached_calls.insert(name, payload);
            proof {
                assert forall|k: Seq<char>| #[trigger] self.callbacks@.contains_key(k)
                    implies !self.cached_calls@.contains_key(k) by {
                    assert(k != name@);
                    assert(old(self).cached_calls@.contains_key(k)
                        == self.cached_calls@.contains_key(k));
                }
            }
            match prior {
                Some(older) => SendOutcome::Replaced(older),
                None => SendOutcome::Buffered,
            }
        }
    }

    /// The sink actively registered under `name`, if any.
    ///
    /// This is the read-only half of a delivery: a caller holding only
    /// shared access looks the sink up here, releases its hold, and invokes
    /// the sink on its own.
    /// Delivery and buffering are mutually exclusive per channel name: a
    /// name with an active sink never also holds a buffered payload.
    pub proof fn lemma_active_pending_disjoint(s: Self, name: Seq<char>)
        requires
            s.wf(),
            s.active().contains_key(name),
        ensures
            !s.pending().contains_key(name),
    {
    }

    /// Buffer-then-collect: a payload sent to a name with no active sink is
    /// handed, unchanged, to the next registrant of that name, and the send
    /// itself delivers to no sink.
    pub proof fn lemma_send_then_register(
        s0: Self,
        s1: Self,
        s2: Self,
        name: Seq<char>,
        payload: P,
        sink: S,
        r1: SendOutcome<P>,
        r2: RegisterOutcome<P>,
    )
        requires
            !s0.active().contains_key(name),
            Self::send_post(s0, s1, name, payload, r1),
            Self::register_post(s1, s2, name, sink, r2),
        ensures
            r2 == RegisterOutcome::Registered(Some(payload)),
            !(r1 is Deliver),
    {
    }

    /// Sending to a name with an active sink asks for exactly one delivery,
    /// of that very payload, leaves the registry untouched, and finds no
    /// buffer under the name.
    pub proof fn lemma_send_to_registered(
        s0: Self,
        s1: Self,
        name: Seq<char>,
        payload: P,
        r: SendOutcome<P>,
    )
        requires
            s0.wf(),
            s0.active().contains_key(name),
            Self::send_post(s0, s1, name, payload, r),
        ensures
            r == SendOutcome::Deliver(payload),
            s1 == s0,
            !s1.pending().contains_key(name),
    {
    }

    /// A second registration under a live name is refused: the first sink
    /// stays active, and a later send is delivered toward it.
    pub proof fn lemma_register_duplicate_keeps_first(
        s0: Self,
        s1: Self,
        s2: Self,
        s3: Self,
        name: Seq<char>,
        sink1: S,
        sink2: S,
        payload: P,
        r1: RegisterOutcome<P>,
        r2: RegisterOutcome<P>,
        r3: SendOutcome<P>,
    )
        requires
            !s0.active().contains_key(name),
            Self::register_post(s0, s1, name, sink1, r1),
            Self::register_post(s1, s2, name, sink2, r2),
            Self::send_post(s2, s3, name, payload, r3),
        ensures
            r2 == RegisterOutcome::<P>::AlreadyRegistered,
            s2 == s1,
            s2.active()[name] == sink1,
            r3 == SendOutcome::Deliver(payload),
            s3 == s2,
    {
    }

    /// Unregistering a name with no active registration changes nothing,
    /// and the anomaly is reported in the outcome.
    pub proof fn lemma_unregister_vacant_is_noop(
        s0: Self,
        s1: Self,
        name: Seq<char>,
        r: UnregisterOutcome,
    )
        requires
            !s0.active().contains_key(name),
            Self::unregister_post(s0, s1, name, r),
        ensures
            s1 == s0,
            r == UnregisterOutcome::NotRegistered,
    {
    }

    /// Last write wins: two sends to a vacant, unbuffered name followed by
    /// a registration hand over only the later payload; the earlier one is
    /// replaced, reported, and never delivered.
    pub proof fn lemma_last_write_wins(
        s0: Self,
        s1: Self,
        s2: Self,
        s3: Self,
        name: Seq<char>,
        payload1: P,
        payload2: P,
        sink: S,
        r1: SendOutcome<P>,
        r2: SendOutcome<P>,
        r3: RegisterOutcome<P>,
    )
        requires
            !s0.active().contains_key(name),
            !s0.pending().contains_key(name),
            Self::send_post(s0, s1, name, payload1, r1),
            Self::send_post(s1, s2, name, payload2, r2),
            Self::register_post(s2, s3, name, sink, r3),
        ensures
            r1 == SendOutcome::<P>::Buffered,
            r2 == SendOutcome::Replaced(payload1),
            r3 == RegisterOutcome::Registered(Some(payload2)),
            !s3.pending().contains_key(name),
    {
    }

    /// The sink actively registered under `name`, if any.
    ///
    /// This is the read-only half of a delivery: a caller holding only
    /// shared access looks the sink up here, releases its hold, and invokes
    /// the sink on its own.
    pub fn sink_for(&self, name: &str) -> (r: Option<&S>)
        requires
            self.wf(),
        ensures
            match r {
                Some(s) => self.active().contains_key(name@) && *s == self.active()[name@],
                None => !self.active().contains_key(name@),
            },
    {
        self.callbacks.get(name)
    }
}

} // verus!
