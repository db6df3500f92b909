//! The alert engine's memory: when each alert last fired, and the recent
//! alerts, newest first.
//!
//! Which rules a snapshot item meets is decided by the caller, who holds its
//! prices. Here a met rule comes in as a candidate; it fires unless the same
//! rule fired for the same token within the cooldown.

use vstd::prelude::*;
use vstd::string::*;
use dashmap::DashMap;
use std::collections::VecDeque;
use crate::config::{ALERT_COOLDOWN_MS, MAX_ALERT_HISTORY};
use crate::shared::{numbers_get, numbers_in, numbers_insert, numbers_new};
use crate::text::{lowercase, lowercase_of};
use crate::types::{AlertLogEntry, AlertType};

verus! {

/// An alert entry as mathematics.
pub struct EntryView {
    pub id: Seq<char>,
    pub chain: Seq<char>,
    pub contract_address: Seq<char>,
    pub symbol: Seq<char>,
    pub message: Seq<char>,
    pub timestamp: i64,
    pub alert_type: AlertType,
}

impl View for AlertLogEntry {
    type V = EntryView;

    open spec fn view(&self) -> EntryView {
        EntryView {
            id: self.id@,
            chain: self.chain@,
            contract_address: self.contract_address@,
            symbol: self.symbol@,
            message: self.message@,
            timestamp: self.timestamp,
            alert_type: self.alert_type,
        }
    }
}

/// The views of a sequence of entries.
pub open spec fn entry_views(v: Seq<AlertLogEntry>) -> Seq<EntryView> {
    Seq::new(v.len(), |i: int| v[i]@)
}

/// A copy of an entry.
pub fn copy_entry(e: &AlertLogEntry) -> (r: AlertLogEntry)
    ensures
        r@ == e@,
{
    AlertLogEntry {
        id: e.id.clone(),
        chain: e.chain.clone(),
        contract_address: e.contract_address.clone(),
        symbol: e.symbol.clone(),
        message: e.message.clone(),
        timestamp: e.timestamp,
        alert_type: e.alert_type,
    }
}

/// The key of a cooldown: `<chain>:<address in lower case>:<rule>`.
pub open spec fn cooldown_key_spec(chain: Seq<char>, address: Seq<char>, rule: AlertType) -> Seq<
    char,
> {
    chain + ":"@ + lowercase_of(address) + ":"@ + rule.tag_spec()
}

/// Writes the key of a cooldown.
pub fn cooldown_key(chain: &str, address: &str, rule: AlertType) -> (r: String)
    ensures
        r@ == cooldown_key_spec(chain@, address@, rule),
{
    let mut s = String::from_str(chain);
    s.append(":");
    let lowered = lowercase(address);
    s.append(lowered.as_str());
    s.append(":");
    s.append(rule.tag());
    s
}

/// A new id for an alert entry.
///
/// Trusted: `uuid::Uuid::new_v4`, written out with `to_string`. The id is
/// drawn at random, so nothing is claimed of it.
#[verifier::external_body]
fn fresh_id() -> String {
    uuid::Uuid::new_v4().to_string()
}

/// A rule that a snapshot item has met.
#[derive(Debug)]
pub struct AlertCandidate {
    pub chain: String,
    pub contract_address: String,
    pub symbol: String,
    pub alert_type: AlertType,
    pub message: String,
}

/// The engine as mathematics: the time of the last firing under each
/// cooldown key, and the history, newest first.
#[verifier::ext_equal]
pub struct AlertView {
    pub cooldowns: Map<Seq<char>, i64>,
    pub history: Seq<EntryView>,
}

/// `history` with `entry` put in front, cut back to the newest fifty.
pub open spec fn pushed(history: Seq<EntryView>, entry: EntryView) -> Seq<EntryView> {
    let grown = seq![entry] + history;
    if grown.len() > 50 {
        grown.take(50)
    } else {
        grown
    }
}

/// No entry is newer than an entry before it.
pub open spec fn newest_first(history: Seq<EntryView>) -> bool {
    forall|i: int, j: int|
        0 <= i <= j < history.len() ==> (#[trigger] history[i]).timestamp
            >= (#[trigger] history[j]).timestamp
}

impl AlertView {
    /// Whether an alert under `key` fires at `now`: it never fired, or the
    /// cooldown has passed since it did. It is held back only where less
    /// than the cooldown has passed.
    pub open spec fn fires(self, key: Seq<char>, now: i64) -> bool {
        !self.cooldowns.contains_key(key) || now - self.cooldowns[key] >= 60_000
    }

    /// The engine after an alert under `key` has been put to it at `now`,
    /// where `entry` is the entry made for it.
    pub open spec fn after(self, key: Seq<char>, now: i64, entry: EntryView) -> AlertView {
        if self.fires(key, now) {
            AlertView {
                cooldowns: self.cooldowns.insert(key, now),
                history: pushed(self.history, entry),
            }
        } else {
            self
        }
    }

    /// The history never grows beyond fifty entries, and stays newest first
    /// as long as the clock does not run backwards: that is, where `now` is
    /// not before the newest entry.
    pub proof fn lemma_history_bounded_and_ordered(self, key: Seq<char>, now: i64, entry: EntryView)
        requires
            self.history.len() <= 50,
            entry.timestamp == now,
        ensures
            self.after(key, now, entry).history.len() <= 50,
            newest_first(self.history) && (self.history.len() > 0 ==> self.history[0].timestamp
                <= now) ==> newest_first(self.after(key, now, entry).history),
    {
        let after = self.after(key, now, entry).history;
        if newest_first(self.history) && (self.history.len() > 0 ==> self.history[0].timestamp
            <= now) && self.fires(key, now) {
            let grown = seq![entry] + self.history;
            assert forall|i: int, j: int| 0 <= i <= j < after.len() implies (#[trigger] after[i]).timestamp
                >= (#[trigger] after[j]).timestamp by {
                assert(after[i] == grown[i]);
                assert(after[j] == grown[j]);
                if i == 0 {
                    if j > 0 {
                        assert(grown[j] == self.history[j - 1]);
                        assert(self.history[0].timestamp >= self.history[j - 1].timestamp);
                    }
                } else {
                    assert(grown[i] == self.history[i - 1]);
                    assert(grown[j] == self.history[j - 1]);
                }
            }
        }
    }

    /// Two firings under one key are the cooldown apart at least: after a
    /// firing at `t1`, the next alert under the key fires at `t2` exactly if
    /// `t2 - t1` is 60 000 ms or more.
    pub proof fn lemma_cooldown_spacing(
        self,
        key: Seq<char>,
        t1: i64,
        e1: EntryView,
        t2: i64,
    )
        requires
            self.fires(key, t1),
        ensures
            self.after(key, t1, e1).fires(key, t2) <==> t2 - t1 >= ALERT_COOLDOWN_MS,
    {
    }
}

/// The alert engine's state.
pub struct AlertEngine {
    cooldowns: DashMap<String, i64>,
    history: VecDeque<AlertLogEntry>,
}

impl View for AlertEngine {
    type V = AlertView;

    closed spec fn view(&self) -> AlertView {
        AlertView { cooldowns: numbers_in(self.cooldowns), history: entry_views(self.history@) }
    }
}

impl AlertEngine {
    /// The invariant of the representation: the history holds fifty entries
    /// at most.
    pub closed spec fn wf(&self) -> bool {
        self.history@.len() <= 50
    }

    /// The history of a well-formed engine holds fifty entries at most.
    pub proof fn lemma_history_bounded(&self)
        requires
            self.wf(),
        ensures
            self@.history.len() <= MAX_ALERT_HISTORY,
    {
    }

    /// An engine that has seen no alert.
    pub fn new() -> (e: AlertEngine)
        ensures
            e.wf(),
            e@.history.len() == 0,
            e@.cooldowns == Map::<Seq<char>, i64>::empty(),
    {
        AlertEngine { cooldowns: numbers_new(), history: VecDeque::new() }
    }

    /// Puts one met rule to the engine at time `now`. Within the cooldown of
    /// an earlier firing of the same rule for the same token nothing happens.
    /// Otherwise the alert fires: the time is noted, an entry with a new id
    /// goes to the front of the history, the oldest entry leaves if there are
    /// more than fifty, and the entry comes back to be sent to the clients.
    pub fn try_trigger_alert(
        &mut self,
        chain: &str,
        addr: &str,
        symbol: &str,
        alert_type: AlertType,
        message: String,
        now: i64,
    ) -> (fired: Option<AlertLogEntry>)
        requires
            old(self).wf(),
        ensures
            final(self).wf(),
            fired is Some == old(self)@.fires(cooldown_key_spec(chain@, addr@, alert_type), now),
            fired is None ==> final(self)@ == old(self)@,
            fired is Some ==> {
                &&& fired->0.chain@ == chain@
                &&& fired->0.contract_address@ == addr@
                &&& fired->0.symbol@ == symbol@
                &&& fired->0.message@ == message@
                &&& fired->0.timestamp == now
                &&& fired->0.alert_type == alert_type
                &&& final(self)@ == old(self)@.after(
                    cooldown_key_spec(chain@, addr@, alert_type),
                    now,
                    fired->0@,
                )
            },
            newest_first(old(self)@.history) && (old(self)@.history.len() > 0 ==> old(
                self,
            )@.history[0].timestamp <= now) ==> newest_first(final(self)@.history),
    {
        let ghost before = self@;
        let key = cooldown_key(chain, addr, alert_type);
        let should_alert = match numbers_get(&self.cooldowns, key.as_str()) {
            Some(last) => (now as i128) - (last as i128) >= ALERT_COOLDOWN_MS as i128,
            None => true,
        };
        if !should_alert {
            return None;
        }
        let ghost kv = key@;
        numbers_insert(&mut self.cooldowns, key, now);
        let entry = AlertLogEntry {
            id: fresh_id(),
            chain: String::from_str(chain),
            contract_address: String::from_str(addr),
            symbol: String::from_str(symbol),
            message,
            timestamp: now,
            alert_type,
        };
        let kept = copy_entry(&entry);
        let ghost was = self.history@;
        self.history.push_front(kept);
        proof {
            assert(entry_views(self.history@) =~= seq![entry@] + entry_views(was));
        }
        if self.history.len() > MAX_ALERT_HISTORY {
            let ghost grown = self.history@;
            self.history.pop_back();
            proof {
                assert(entry_views(self.history@) =~= entry_views(grown).take(50));
            }
        }
        proof {
            assert(self@.history =~= pushed(before.history, entry@));
            assert(self@ =~= before.after(kv, now, entry@));
            before.lemma_history_bounded_and_ordered(kv, now, entry@);
        }
        Some(entry)
    }

    /// The history, newest first: what a client is sent when it connects.
    pub fn history(&self) -> (r: Vec<AlertLogEntry>)
        ensures
            entry_views(r@) == self@.history,
    {
        let mut out: Vec<AlertLogEntry> = Vec::new();
        let mut i: usize = 0;
        while i < self.history.len()
            invariant
                i <= self.history.len(),
                out.len() == i,
                forall|j: int| 0 <= j < i ==> (#[trigger] out@[j])@ == self.history@[j]@,
            decreases self.history.len() - i,
        {
            out.push(copy_entry(&self.history[i]));
            i += 1;
        }
        assert(entry_views(out@) =~= entry_views(self.history@));
        out
    }

    /// The time at which the alert under `key` last fired, if it ever did.
    pub fn last_fired(&self, key: &str) -> (r: Option<i64>)
        ensures
            r is Some == self@.cooldowns.contains_key(key@),
            r is Some ==> r->0 == self@.cooldowns[key@],
    {
        numbers_get(&self.cooldowns, key)
    }
}

/// The cooldown key of a candidate.
pub open spec fn candidate_key(c: AlertCandidate) -> Seq<char> {
    cooldown_key_spec(c.chain@, c.contract_address@, c.alert_type)
}

/// The views of the entries that a batch has fired, `None` for a candidate
/// that was held back.
pub open spec fn fired_views(out: Seq<Option<AlertLogEntry>>) -> Seq<Option<EntryView>> {
    Seq::new(
        out.len(),
        |i: int|
            match out[i] {
                Some(e) => Some(e@),
                None => None,
            },
    )
}

/// The engine after the first `upto` candidates of a batch have been put to
/// it in order at `now`, where `fired[k]` is the entry that candidate `k`
/// made if it fired.
pub open spec fn batch_after(
    v: AlertView,
    c: Seq<AlertCandidate>,
    now: i64,
    fired: Seq<Option<EntryView>>,
    upto: int,
) -> AlertView
    decreases upto,
{
    if upto <= 0 {
        v
    } else {
        let prev = batch_after(v, c, now, fired, upto - 1);
        match fired[upto - 1] {
            Some(e) => prev.after(candidate_key(c[upto - 1]), now, e),
            None => prev,
        }
    }
}

impl AlertEngine {
    /// Puts the met rules of one snapshot to the engine, in order, all at
    /// the time `now`. For each candidate the entry comes back if it fired,
    /// and `None` if it was held back by the cooldown, which an earlier
    /// candidate of the same batch may have started.
    pub fn check_and_trigger_alerts(&mut self, candidates: &Vec<AlertCandidate>, now: i64) -> (out:
        Vec<Option<AlertLogEntry>>)
        requires
            old(self).wf(),
        ensures
            final(self).wf(),
            out.len() == candidates.len(),
            final(self)@ == batch_after(
                old(self)@,
                candidates@,
                now,
                fired_views(out@),
                candidates.len() as int,
            ),
            forall|k: int|
                0 <= k < candidates.len() ==> {
                    &&& (#[trigger] out@[k]) is Some == batch_after(
                        old(self)@,
                        candidates@,
                        now,
                        fired_views(out@),
                        k,
                    ).fires(candidate_key(candidates@[k]), now)
                    &&& out@[k] is Some ==> {
                        &&& out@[k]->0.chain@ == candidates@[k].chain@
                        &&& out@[k]->0.contract_address@ == candidates@[k].contract_address@
                        &&& out@[k]->0.symbol@ == candidates@[k].symbol@
                        &&& out@[k]->0.message@ == candidates@[k].message@
                        &&& out@[k]->0.timestamp == now
                        &&& out@[k]->0.alert_type == candidates@[k].alert_type
                    }
                },
    {
        let ghost before = self@;
        let mut out: Vec<Option<AlertLogEntry>> = Vec::new();
        let mut i: usize = 0;
        while i < candidates.len()
            invariant
                i <= candidates.len(),
                self.wf(),
                out.len() == i,
                self@ == batch_after(before, candidates@, now, fired_views(out@), i as int),
                forall|k: int|
                    0 <= k < i ==> {
                        &&& (#[trigger] out@[k]) is Some == batch_after(
                            before,
                            candidates@,
                            now,
                            fired_views(out@),
                            k,
                        ).fires(candidate_key(candidates@[k]), now)
                        &&& out@[k] is Some ==> {
                            &&& out@[k]->0.chain@ == candidates@[k].chain@
                            &&& out@[k]->0.contract_address@ == candidates@[k].contract_address@
                            &&& out@[k]->0.symbol@ == candidates@[k].symbol@
                            &&& out@[k]->0.message@ == candidates@[k].message@
                            &&& out@[k]->0.timestamp == now
                            &&& out@[k]->0.alert_type == candidates@[k].alert_type
                        }
                    },
            decreases candidates.len() - i,
        {
            let c = &candidates[i];
            let ghost was = out@;
            let ghost cur = self@;
            let fired = self.try_trigger_alert(
                c.chain.as_str(),
                c.contract_address.as_str(),
                c.symbol.as_str(),
                c.alert_type,
                c.message.clone(),
                now,
            );
            out.push(fired);
            proof {
                assert forall|k: int| 0 <= k <= i implies #[trigger] batch_after(
                    before,
                    candidates@,
                    now,
                    fired_views(out@),
                    k,
                ) == batch_after(before, candidates@, now, fired_views(was), k) by {
                    lemma_batch_prefix(before, candidates@, now, fired_views(was), fired_views(out@), k);
                }
                assert(fired_views(out@)[i as int] == (match out@[i as int] {
                    Some(e) => Some(e@),
                    None => None,
                }));
                let prev = batch_after(before, candidates@, now, fired_views(out@), i as int);
                assert(prev == cur);
                assert(candidate_key(candidates@[i as int]) == cooldown_key_spec(
                    c.chain@,
                    c.contract_address@,
                    c.alert_type,
                ));
                assert(batch_after(before, candidates@, now, fired_views(out@), i + 1) == (
                match fired_views(out@)[i as int] {
                    Some(e) => prev.after(candidate_key(candidates@[i as int]), now, e),
                    None => prev,
                }));
            }
            i += 1;
        }
        out
    }
}

/// What a batch has done after `upto` candidates depends on the first `upto`
/// outcomes only.
pub proof fn lemma_batch_prefix(
    v: AlertView,
    c: Seq<AlertCandidate>,
    now: i64,
    a: Seq<Option<EntryView>>,
    b: Seq<Option<EntryView>>,
    upto: int,
)
    requires
        upto <= a.len(),
        upto <= b.len(),
        forall|k: int| 0 <= k < upto ==> a[k] == b[k],
    ensures
        batch_after(v, c, now, a, upto) == batch_after(v, c, now, b, upto),
    decreases upto,
{
    if upto > 0 {
        lemma_batch_prefix(v, c, now, a, b, upto - 1);
    }
}

} // verus!
