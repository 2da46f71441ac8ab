//! The cancellation registry: which transfers can be asked to stop, and
//! which have been.

use vstd::prelude::*;

use crate::queue_model::{
    count_key, first_index, key_is, key_is_not, lemma_count_positive, lemma_count_push,
    lemma_count_update, lemma_count_without, lemma_filter_skip_step, lemma_first_index,
    lemma_first_index_is, without_key, TaskRecord,
};
use crate::text::{owned, str_eq};

verus! {

/// The stop flag of one running transfer. The ticket tells the flag of a
/// worker apart from the flag of a later worker for the same id.
#[derive(Debug, PartialEq, Eq)]
pub struct CancelToken {
    pub id: String,
    pub ticket: u64,
    pub cancelled: bool,
}

/// Mathematical view of a [`CancelToken`].
pub ghost struct CancelTokenView {
    pub id: Seq<char>,
    pub ticket: u64,
    pub cancelled: bool,
}

impl View for CancelToken {
    type V = CancelTokenView;

    open spec fn view(&self) -> CancelTokenView {
        CancelTokenView { id: self.id@, ticket: self.ticket, cancelled: self.cancelled }
    }
}

impl DeepView for CancelToken {
    type V = CancelTokenView;

    open spec fn deep_view(&self) -> CancelTokenView {
        self@
    }
}

impl TaskRecord for CancelTokenView {
    open spec fn key(self) -> Seq<char> {
        self.id
    }
}

/// The registry as a value: the flags in the order of registration and the
/// ticket that the next registration gets.
pub ghost struct RegistryView {
    pub tokens: Seq<CancelTokenView>,
    pub next_ticket: u64,
}

impl RegistryView {
    /// Position of the flag registered under `id`, or the number of flags
    /// when there is none.
    pub open spec fn position(self, id: Seq<char>) -> int {
        first_index(self.tokens, key_is::<CancelTokenView>(id))
    }

    /// Whether a flag is registered under `id`.
    pub open spec fn is_registered(self, id: Seq<char>) -> bool {
        self.position(id) < self.tokens.len()
    }

    /// No id has two flags.
    pub open spec fn well_formed(self) -> bool {
        forall|k: Seq<char>| #[trigger] count_key(self.tokens, k) <= 1
    }

    /// The ticket after `t`; the last ticket is handed out again rather
    /// than wrapping around.
    pub open spec fn following(t: u64) -> u64 {
        if t < u64::MAX {
            (t + 1) as u64
        } else {
            t
        }
    }

    /// The registry after a flag was registered under `id`: an earlier flag
    /// under that id is replaced.
    pub open spec fn after_register(self, id: Seq<char>) -> RegistryView {
        RegistryView {
            tokens: without_key(self.tokens, id).push(
                CancelTokenView { id, ticket: self.next_ticket, cancelled: false },
            ),
            next_ticket: Self::following(self.next_ticket),
        }
    }

    /// The registry after the transfer `id` was asked to stop.
    pub open spec fn after_signal(self, id: Seq<char>) -> RegistryView {
        let pos = self.position(id);
        if pos < self.tokens.len() {
            RegistryView {
                tokens: self.tokens.update(
                    pos,
                    CancelTokenView { cancelled: true, ..self.tokens[pos] },
                ),
                ..self
            }
        } else {
            self
        }
    }

    /// The registry without the flag of `id`.
    pub open spec fn after_clear(self, id: Seq<char>) -> RegistryView {
        RegistryView { tokens: without_key(self.tokens, id), ..self }
    }

    /// Whether the worker that registered under `id` with `ticket` has to
    /// stop: its flag is set, or is no longer registered.
    pub open spec fn must_stop(self, id: Seq<char>, ticket: u64) -> bool {
        let pos = self.position(id);
        if pos < self.tokens.len() && self.tokens[pos].ticket == ticket {
            self.tokens[pos].cancelled
        } else {
            true
        }
    }
}

/// Registering, signalling and clearing keep the registry well formed.
pub proof fn lemma_registry_well_formed(r: RegistryView, id: Seq<char>)
    requires
        r.well_formed(),
    ensures
        r.after_register(id).well_formed(),
        r.after_signal(id).well_formed(),
        r.after_clear(id).well_formed(),
{
    lemma_first_index(r.tokens, key_is::<CancelTokenView>(id));
    let fresh = CancelTokenView { id, ticket: r.next_ticket, cancelled: false };
    assert forall|k: Seq<char>| #[trigger] count_key(r.after_register(id).tokens, k) <= 1 by {
        assert(count_key(r.tokens, k) <= 1);
        lemma_count_without(r.tokens, id, k);
        lemma_count_push(without_key(r.tokens, id), fresh, k);
    }
    assert forall|k: Seq<char>| #[trigger] count_key(r.after_clear(id).tokens, k) <= 1 by {
        assert(count_key(r.tokens, k) <= 1);
        lemma_count_without(r.tokens, id, k);
    }
    let pos = r.position(id);
    if pos < r.tokens.len() {
        assert forall|k: Seq<char>| #[trigger] count_key(r.after_signal(id).tokens, k) <= 1 by {
            assert(count_key(r.tokens, k) <= 1);
            lemma_count_update(
                r.tokens,
                pos,
                CancelTokenView { cancelled: true, ..r.tokens[pos] },
                k,
            );
        }
    }
}

/// A transfer that was asked to stop stays asked until its flag is
/// replaced: the worker that holds the ticket of the signalled flag has to
/// stop, also after the flag has been cleared.
pub proof fn lemma_signal_is_observed(r: RegistryView, id: Seq<char>, ticket: u64)
    requires
        r.well_formed(),
        r.is_registered(id),
    ensures
        r.after_signal(id).must_stop(id, ticket),
        r.after_signal(id).after_clear(id).must_stop(id, ticket),
        r.after_clear(id).must_stop(id, ticket),
{
    let p = key_is::<CancelTokenView>(id);
    lemma_first_index(r.tokens, p);
    let pos = r.position(id);
    let s = r.after_signal(id);
    assert(s.tokens[pos].id == id);
    lemma_first_index_is(s.tokens, p, pos);
    lemma_cleared_is_absent(s, id);
    lemma_cleared_is_absent(r, id);
}

/// Registering under one id leaves the flags of all other ids registered,
/// and registers the id itself.
pub proof fn lemma_register_keeps(r: RegistryView, id: Seq<char>, other: Seq<char>)
    ensures
        r.after_register(id).is_registered(id),
        r.is_registered(other) ==> r.after_register(id).is_registered(other),
{
    let fresh = CancelTokenView { id, ticket: r.next_ticket, cancelled: false };
    let kept = without_key(r.tokens, id);
    let after = r.after_register(id);
    lemma_count_without(r.tokens, id, other);
    lemma_count_without(r.tokens, id, id);
    lemma_count_push(kept, fresh, other);
    lemma_count_push(kept, fresh, id);
    lemma_count_positive(r.tokens, other);
    lemma_count_positive(after.tokens, other);
    lemma_count_positive(after.tokens, id);
}

/// After clearing, no flag is registered under the id.
pub proof fn lemma_cleared_is_absent(r: RegistryView, id: Seq<char>)
    ensures
        !r.after_clear(id).is_registered(id),
{
    let c = r.after_clear(id);
    lemma_count_without(r.tokens, id, id);
    lemma_count_positive(c.tokens, id);
}

/// The flags of the running transfers.
#[derive(Debug, PartialEq, Eq)]
pub struct CancelRegistry {
    tokens: Vec<CancelToken>,
    next_ticket: u64,
}

impl View for CancelRegistry {
    type V = RegistryView;

    closed spec fn view(&self) -> RegistryView {
        RegistryView { tokens: self.tokens.deep_view(), next_ticket: self.next_ticket }
    }
}

impl CancelRegistry {
    /// Whether the registry satisfies its invariant.
    pub open spec fn wf(&self) -> bool {
        self@.well_formed()
    }

    /// A registry without flags.
    pub fn new() -> (r: Self)
        ensures
            r@.tokens == Seq::<CancelTokenView>::empty(),
            r@.next_ticket == 0,
            r.wf(),
    {
        let r = CancelRegistry { tokens: Vec::new(), next_ticket: 0 };
        proof {
            assert(r@.tokens =~= Seq::<CancelTokenView>::empty());
            assert forall|k: Seq<char>| #[trigger] count_key(r@.tokens, k) <= 1 by {
                crate::queue_model::lemma_count_empty::<CancelTokenView>(k);
            }
        }
        r
    }

    fn position_of(&self, id: &str) -> (r: Option<usize>)
        ensures
            match r {
                Some(i) => i < self@.tokens.len() && i == self@.position(id@),
                None => self@.position(id@) == self@.tokens.len(),
            },
    {
        let ghost p = key_is::<CancelTokenView>(id@);
        let mut i: usize = 0;
        while i < self.tokens.len()
            invariant
                i <= self.tokens.len(),
                p == key_is::<CancelTokenView>(id@),
                forall|j: int| 0 <= j < i ==> !p(#[trigger] self.tokens.deep_view()[j]),
            decreases self.tokens.len() - i,
        {
            if str_eq(self.tokens[i].id.as_str(), id) {
                proof {
                    assert(p(self.tokens.deep_view()[i as int]));
                    lemma_first_index_is(self.tokens.deep_view(), p, i as int);
                }
                return Some(i);
            }
            i += 1;
        }
        proof {
            lemma_first_index_is(self.tokens.deep_view(), p, i as int);
        }
        None
    }

    fn drop_id(&mut self, id: &str)
        ensures
            final(self)@ == old(self)@.after_clear(id@),
    {
        let ghost p = key_is_not::<CancelTokenView>(id@);
        let ghost orig = self.tokens.deep_view();
        let mut i: usize = 0;
        proof {
            assert(orig.skip(0) =~= orig);
            assert(orig.take(0) + orig.filter(p) =~= orig.filter(p));
        }
        while i < self.tokens.len()
            invariant
                i <= self.tokens.len(),
                self.next_ticket == old(self).next_ticket,
                p == key_is_not::<CancelTokenView>(id@),
                orig.filter(p) == self.tokens.deep_view().take(i as int)
                    + self.tokens.deep_view().skip(i as int).filter(p),
            decreases self.tokens.len() - i,
        {
            let ghost before = self.tokens.deep_view();
            proof {
                lemma_filter_skip_step(before, p, i as int);
            }
            if str_eq(self.tokens[i].id.as_str(), id) {
                self.tokens.remove(i);
                proof {
                    assert(self.tokens.deep_view().take(i as int) =~= before.take(i as int));
                    assert(self.tokens.deep_view().skip(i as int) =~= before.skip(i + 1));
                }
            } else {
                proof {
                    assert(before.take(i + 1) + before.skip(i + 1).filter(p) =~= before.take(
                        i as int,
                    ) + (seq![before[i as int]] + before.skip(i + 1).filter(p)));
                }
                i += 1;
            }
        }
        proof {
            let now = self.tokens.deep_view();
            assert(now.skip(i as int) =~= Seq::<CancelTokenView>::empty());
            reveal_with_fuel(Seq::filter, 1);
            assert(now.take(i as int) + now.skip(i as int).filter(p) =~= now);
        }
    }

    /// Registers a fresh flag under `id`, in place of an earlier one, and
    /// returns its ticket.
    pub fn register(&mut self, id: &str) -> (ticket: u64)
        ensures
            final(self)@ == old(self)@.after_register(id@),
            ticket == old(self)@.next_ticket,
            old(self).wf() ==> final(self).wf(),
    {
        proof {
            if old(self).wf() {
                lemma_registry_well_formed(old(self)@, id@);
            }
        }
        self.drop_id(id);
        let ticket = self.next_ticket;
        let ghost before = self.tokens.deep_view();
        self.tokens.push(CancelToken { id: owned(id), ticket, cancelled: false });
        if self.next_ticket < u64::MAX {
            self.next_ticket = self.next_ticket + 1;
        }
        proof {
            assert(self.tokens.deep_view() =~= before.push(
                CancelTokenView { id: id@, ticket, cancelled: false },
            ));
        }
        ticket
    }

    /// Asks the transfer `id` to stop and says whether a flag was
    /// registered for it.
    pub fn signal(&mut self, id: &str) -> (found: bool)
        ensures
            found == old(self)@.is_registered(id@),
            final(self)@ == old(self)@.after_signal(id@),
            old(self).wf() ==> final(self).wf(),
    {
        proof {
            if old(self).wf() {
                lemma_registry_well_formed(old(self)@, id@);
            }
        }
        match self.position_of(id) {
            Some(pos) => {
                let ghost before = self.tokens.deep_view();
                let token = CancelToken {
                    id: self.tokens[pos].id.clone(),
                    ticket: self.tokens[pos].ticket,
                    cancelled: true,
                };
                self.tokens.set(pos, token);
                proof {
                    assert(self.tokens.deep_view() =~= before.update(
                        pos as int,
                        CancelTokenView { cancelled: true, ..before[pos as int] },
                    ));
                }
                true
            },
            None => false,
        }
    }

    /// Forgets the flag of `id`.
    pub fn clear(&mut self, id: &str)
        ensures
            final(self)@ == old(self)@.after_clear(id@),
            old(self).wf() ==> final(self).wf(),
    {
        proof {
            if old(self).wf() {
                lemma_registry_well_formed(old(self)@, id@);
            }
        }
        self.drop_id(id);
    }

    /// Whether a flag is registered under `id`.
    pub fn is_registered(&self, id: &str) -> (r: bool)
        ensures
            r == self@.is_registered(id@),
    {
        self.position_of(id).is_some()
    }

    /// The ticket of the flag registered under `id`.
    pub fn ticket_of(&self, id: &str) -> (r: Option<u64>)
        ensures
            r is Some == self@.is_registered(id@),
            r is Some ==> r->0 == self@.tokens[self@.position(id@)].ticket,
    {
        match self.position_of(id) {
            Some(pos) => Some(self.tokens[pos].ticket),
            None => None,
        }
    }

    /// Whether the worker that registered under `id` with `ticket` has to
    /// stop.
    pub fn must_stop(&self, id: &str, ticket: u64) -> (r: bool)
        ensures
            r == self@.must_stop(id@, ticket),
    {
        match self.position_of(id) {
            Some(pos) => {
                if self.tokens[pos].ticket == ticket {
                    self.tokens[pos].cancelled
                } else {
                    true
                }
            },
            None => true,
        }
    }
}

} // verus!
