//! The replicated log: an ordered sequence of commands, each tagged with the
//! term in which a leader first received it.
use vstd::prelude::*;

use crate::Term;

verus! {

/// Position of an entry in the log. Log positions count from 1; position 0
/// stands for "before the first entry".
pub type LogIndex = usize;

/// Alias of [`LogIndex`].
pub type Index = LogIndex;

/// A log held in memory.
pub type InVec<Command> = Vec<Item<Command>>;

/// A log entry: a command for the state machine and the term in which the
/// leader received it.
#[derive(Clone, Copy, Debug, PartialEq, Eq)]
pub struct Item<Command> {
    pub term: Term,
    pub command: Command,
}

impl<Command> Item<Command> {
    pub fn new(term: Term, command: Command) -> (item: Self)
        ensures
            item.term == term,
            item.command == command,
    {
        Self { term, command }
    }
}

/// Number of consecutive entries, counted from `entries[k]` on, whose term agrees
/// with the log entry at the same offset from `start` (`log[start + k]`, ...).
pub open spec fn agreeing_run<C>(log: Seq<Item<C>>, start: int, entries: Seq<Item<C>>, k: nat) -> nat
    decreases entries.len() - k,
{
    if k < entries.len() && 0 <= start + k < log.len() && log[start + k].term == entries[k as int].term {
        agreeing_run(log, start, entries, k + 1)
    } else {
        k
    }
}

/// The log after receiving `entries` that follow position `prev`: the entries
/// whose terms agree with the log are kept, the log is cut at the first
/// disagreement (or after the last received entry), and the remaining received
/// entries are appended.
pub open spec fn merge_entries<C>(log: Seq<Item<C>>, prev: int, entries: Seq<Item<C>>) -> Seq<Item<C>> {
    let k = agreeing_run(log, prev, entries, 0) as int;
    log.take(prev + k) + entries.skip(k)
}

/// Term of the entry at 1-based position `index`, or 0 for position 0.
pub open spec fn term_at<C>(log: Seq<Item<C>>, index: int) -> Term {
    if 1 <= index <= log.len() {
        log[index - 1].term
    } else {
        0
    }
}

/// Term of the last entry, 0 for an empty log.
pub open spec fn last_term<C>(log: Seq<Item<C>>) -> Term {
    term_at(log, log.len() as int)
}

/// The log holds an entry at 1-based position `index` and its term is `term`.
pub open spec fn entry_matches<C>(log: Seq<Item<C>>, index: int, term: Term) -> bool {
    1 <= index <= log.len() && log[index - 1].term == term
}

/// A log that ends at `last_index` with term `last_term_other` is at least as
/// up-to-date as `log` (§5.4.1): a later last term wins, and with equal last
/// terms the longer log wins.
pub open spec fn at_least_as_up_to_date<C>(log: Seq<Item<C>>, last_index: int, last_term_other: Term) -> bool {
    last_term_other > last_term(log) || (last_term_other == last_term(log) && last_index >= log.len())
}

/// The run of agreeing terms starting at `k` stays within both the received
/// entries and the log, and every entry in it agrees.
proof fn lemma_agreeing_run_bounds<C>(log: Seq<Item<C>>, start: int, entries: Seq<Item<C>>, k: nat)
    requires
        0 <= start,
        k <= entries.len(),
        start + k <= log.len(),
    ensures
        k <= agreeing_run(log, start, entries, k) <= entries.len(),
        start + agreeing_run(log, start, entries, k) <= log.len(),
        forall|j: int|
            k <= j < agreeing_run(log, start, entries, k) ==> #[trigger] log[start + j].term
                == entries[j].term,
    decreases entries.len() - k,
{
    if k < entries.len() && start + k < log.len() && log[start + k].term == entries[k as int].term {
        lemma_agreeing_run_bounds(log, start, entries, k + 1);
    }
}

/// When every received entry from `k` on agrees with the log, the run covers
/// all of them.
proof fn lemma_agreeing_run_full<C>(log: Seq<Item<C>>, start: int, entries: Seq<Item<C>>, k: nat)
    requires
        0 <= start,
        k <= entries.len(),
        start + entries.len() <= log.len(),
        forall|j: int| k <= j < entries.len() ==> #[trigger] log[start + j].term == entries[j].term,
    ensures
        agreeing_run(log, start, entries, k) == entries.len(),
    decreases entries.len() - k,
{
    if k < entries.len() {
        assert(log[start + k].term == entries[k as int].term);
        lemma_agreeing_run_full(log, start, entries, k + 1);
    }
}

/// Receiving entries that follow position `prev` keeps the first `prev` entries
/// of the log, and yields a log of exactly `prev + entries.len()` entries whose
/// terms from position `prev` on are the terms of the received entries.
pub proof fn lemma_merge_entries_shape<C>(log: Seq<Item<C>>, prev: int, entries: Seq<Item<C>>)
    requires
        0 <= prev <= log.len(),
    ensures
        merge_entries(log, prev, entries).len() == prev + entries.len(),
        merge_entries(log, prev, entries).take(prev) == log.take(prev),
        forall|j: int|
            0 <= j < entries.len() ==> #[trigger] merge_entries(log, prev, entries)[prev + j].term
                == entries[j].term,
{
    lemma_agreeing_run_bounds(log, prev, entries, 0);
    let k = agreeing_run(log, prev, entries, 0) as int;
    let merged = merge_entries(log, prev, entries);
    assert forall|j: int| 0 <= j < entries.len() implies #[trigger] merged[prev + j].term
        == entries[j].term by {
        if j < k {
            assert(merged[prev + j] == log[prev + j]);
        } else {
            assert(merged[prev + j] == entries.skip(k)[j - k]);
        }
    }
    assert(merged.take(prev) =~= log.take(prev));
}

/// Receiving the same entries a second time leaves the log as the first
/// delivery left it: a retried AppendEntries request changes nothing.
pub proof fn lemma_merge_entries_idempotent<C>(log: Seq<Item<C>>, prev: int, entries: Seq<Item<C>>)
    requires
        0 <= prev <= log.len(),
    ensures
        merge_entries(merge_entries(log, prev, entries), prev, entries) == merge_entries(
            log,
            prev,
            entries,
        ),
{
    let merged = merge_entries(log, prev, entries);
    lemma_merge_entries_shape(log, prev, entries);
    lemma_agreeing_run_full(merged, prev, entries, 0);
    assert(merged.take(prev + entries.len()) =~= merged);
    assert(entries.skip(entries.len() as int) =~= Seq::<Item<C>>::empty());
    assert(merge_entries(merged, prev, entries) =~= merged);
}

/// When a follower accepts the entries a leader holds after position `prev`,
/// its log ends up with as many entries as the leader's, and with the leader's
/// term at every position after `prev`; the first `prev` entries are its own.
pub proof fn lemma_follower_catches_up<C>(leader_log: Seq<Item<C>>, follower_log: Seq<Item<C>>, prev: int)
    requires
        0 <= prev <= leader_log.len(),
        prev <= follower_log.len(),
    ensures
        merge_entries(follower_log, prev, leader_log.skip(prev)).len() == leader_log.len(),
        merge_entries(follower_log, prev, leader_log.skip(prev)).take(prev) == follower_log.take(prev),
        forall|i: int|
            prev <= i < leader_log.len() ==> #[trigger] merge_entries(
                follower_log,
                prev,
                leader_log.skip(prev),
            )[i].term == leader_log[i].term,
{
    let sent = leader_log.skip(prev);
    lemma_merge_entries_shape(follower_log, prev, sent);
    assert forall|i: int| prev <= i < leader_log.len() implies #[trigger] merge_entries(
        follower_log,
        prev,
        sent,
    )[i].term == leader_log[i].term by {
        assert(merge_entries(follower_log, prev, sent)[prev + (i - prev)].term == sent[i - prev].term);
    }
}

/// The leader forces a follower to duplicate its own log (§5.3): when the two
/// logs agree up to position `prev`, and two entries at the same position with
/// the same term are the same entry (the Log Matching Property, §5.3), a
/// follower that accepts the leader's entries after `prev` ends up with exactly
/// the leader's log.
pub proof fn lemma_follower_duplicates_leader_log<C>(leader_log: Seq<Item<C>>, follower_log: Seq<Item<C>>, prev: int)
    requires
        0 <= prev <= leader_log.len(),
        prev <= follower_log.len(),
        follower_log.take(prev) == leader_log.take(prev),
        forall|i: int|
            0 <= i < leader_log.len() && 0 <= i < follower_log.len() && #[trigger] follower_log[i].term
                == #[trigger] leader_log[i].term ==> follower_log[i] == leader_log[i],
    ensures
        merge_entries(follower_log, prev, leader_log.skip(prev)) == leader_log,
{
    let sent = leader_log.skip(prev);
    let merged = merge_entries(follower_log, prev, sent);
    lemma_follower_catches_up(leader_log, follower_log, prev);
    lemma_agreeing_run_bounds(follower_log, prev, sent, 0);
    let k = agreeing_run(follower_log, prev, sent, 0) as int;
    assert forall|i: int| 0 <= i < leader_log.len() implies #[trigger] merged[i] == leader_log[i] by {
        if i < prev {
            assert(merged.take(prev)[i] == follower_log.take(prev)[i]);
            assert(leader_log.take(prev)[i] == leader_log[i]);
        } else if i < prev + k {
            assert(follower_log[prev + (i - prev)].term == sent[i - prev].term);
            assert(merged[i] == follower_log[i]);
        } else {
            assert(merged[i] == sent.skip(k)[i - prev - k]);
        }
    }
    assert(merged =~= leader_log);
}

/// Operations on a replicated log.
pub trait Log: Sized {
    type Command;

    /// The entries of the log, the first entry at sequence position 0 (log position 1).
    spec fn entries(&self) -> Seq<Item<Self::Command>>;

    /// Check items against existing items in log, remove from log any
    /// conflicting items and those following them and append the remaining
    /// new items.
    /// Returns the index of the last new item added.
    fn truncate_if_different_and_append(&mut self, prev_index: LogIndex, items: Vec<Item<Self::Command>>) -> (last: LogIndex)
        requires
            prev_index <= old(self).entries().len(),
        ensures
            final(self).entries() == merge_entries(old(self).entries(), prev_index as int, items@),
            last == final(self).entries().len(),
    ;

    /// Whether the log holds an entry at position `index` with term `term`.
    fn log_term_matches(&self, index: LogIndex, term: Term) -> (matches: bool)
        requires
            index >= 1,
        ensures
            matches == entry_matches(self.entries(), index as int, term),
    ;

    /// Position of the last entry, 0 for an empty log.
    fn last_log_index(&self) -> (index: LogIndex)
        ensures
            index == self.entries().len(),
    ;

    /// Term of the last entry, 0 for an empty log.
    fn last_log_term(&self) -> (term: Term)
        ensures
            term == last_term(self.entries()),
    ;

    /// Term of the entry at position `index`, 0 for position 0.
    fn term_at(&self, index: LogIndex) -> (term: Term)
        requires
            index <= self.entries().len(),
        ensures
            term == term_at(self.entries(), index as int),
    ;

    /// The command of the entry at position `index`.
    fn get_command(&self, index: LogIndex) -> (command: &Self::Command)
        requires
            1 <= index <= self.entries().len(),
        ensures
            *command == self.entries()[index - 1].command,
    ;

    /// Append one entry at the end of the log.
    fn append_item(&mut self, item: Item<Self::Command>)
        ensures
            final(self).entries() == old(self).entries().push(item),
    ;

    /// The entries that follow position `index`.
    fn entries_after(&self, index: LogIndex) -> (items: Vec<Item<Self::Command>>)
        requires
            index <= self.entries().len(),
        ensures
            items@ == self.entries().skip(index as int),
    ;
}

impl<C: Copy> Log for Vec<Item<C>> {
    type Command = C;

    open spec fn entries(&self) -> Seq<Item<C>> {
        self@
    }

    fn truncate_if_different_and_append(&mut self, prev_index: LogIndex, items: Vec<Item<C>>) -> (last: LogIndex) {
        let ghost old_log = self@;
        let mut items = items;
        // advance over existing items whose terms match
        let len = self.len();
        let mut k: usize = 0;
        while k < items.len() && prev_index + k < len && self[prev_index + k].term == items[k].term
            invariant
                self@ == old_log,
                len == old_log.len(),
                prev_index <= old_log.len(),
                k <= items.len(),
                prev_index + k <= old_log.len(),
                agreeing_run(old_log, prev_index as int, items@, k as nat)
                    == agreeing_run(old_log, prev_index as int, items@, 0),
            decreases items.len() - k,
        {
            k = k + 1;
        }
        self.truncate(prev_index + k);
        let mut rest = items.split_off(k);
        self.append(&mut rest);
        self.len()
    }

    fn log_term_matches(&self, index: LogIndex, term: Term) -> (matches: bool) {
        if index - 1 < self.len() {
            return self[index - 1].term == term;
        }
        false
    }

    fn last_log_index(&self) -> (index: LogIndex) {
        self.len()
    }

    fn last_log_term(&self) -> (term: Term) {
        self.term_at(self.len())
    }

    fn term_at(&self, index: LogIndex) -> (term: Term) {
        if index == 0 {
            0
        } else {
            self[index - 1].term
        }
    }

    fn get_command(&self, index: LogIndex) -> (command: &C) {
        &self[index - 1].command
    }

    fn append_item(&mut self, item: Item<C>) {
        self.push(item);
    }

    fn entries_after(&self, index: LogIndex) -> (items: Vec<Item<C>>) {
        let mut items: Vec<Item<C>> = Vec::new();
        let mut i: usize = index;
        while i < self.len()
            invariant
                index <= i <= self@.len(),
                items@ == self@.subrange(index as int, i as int),
            decreases self@.len() - i,
        {
            items.push(self[i]);
            i = i + 1;
        }
        items
    }
}

} // verus!
