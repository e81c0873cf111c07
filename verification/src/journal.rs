use vstd::prelude::*;
use std::collections::VecDeque;

verus! {

/// The most entries the trade journal holds.
pub const TRADE_BUFFER_CAP: usize = 1000;

/// The journal after a newly opened position is recorded: the entry goes to
/// the front and, beyond the cap, the oldest entry at the back is dropped.
pub open spec fn after_opened<T>(journal: Seq<T>, entry: T) -> Seq<T> {
    let s = seq![entry] + journal;
    if s.len() > TRADE_BUFFER_CAP {
        s.drop_last()
    } else {
        s
    }
}

/// The journal after a historical trade is recorded: the entry goes to the
/// back and, beyond the cap, the entry at the front is dropped.
pub open spec fn after_historical<T>(journal: Seq<T>, entry: T) -> Seq<T> {
    let s = journal.push(entry);
    if s.len() > TRADE_BUFFER_CAP {
        s.drop_first()
    } else {
        s
    }
}

/// Records a newly opened position at the front of the journal.
pub fn record_opened<T>(journal: &mut VecDeque<T>, entry: T)
    ensures
        final(journal)@ == after_opened(old(journal)@, entry),
{
    journal.push_front(entry);
    if journal.len() > TRADE_BUFFER_CAP {
        let _ = journal.pop_back();
        proof {
            assert(journal@ =~= after_opened(old(journal)@, entry));
        }
    }
}

/// Records a trade replayed from history at the back of the journal.
pub fn record_historical<T>(journal: &mut VecDeque<T>, entry: T)
    ensures
        final(journal)@ == after_historical(old(journal)@, entry),
{
    journal.push_back(entry);
    if journal.len() > TRADE_BUFFER_CAP {
        let _ = journal.pop_front();
        proof {
            assert(journal@ =~= after_historical(old(journal)@, entry));
        }
    }
}

/// The journal never grows past its cap: recording keeps a journal within
/// the cap within it.
pub proof fn lemma_journal_bounded<T>(journal: Seq<T>, entry: T)
    requires
        journal.len() <= TRADE_BUFFER_CAP,
    ensures
        after_opened(journal, entry).len() <= TRADE_BUFFER_CAP,
        after_historical(journal, entry).len() <= TRADE_BUFFER_CAP,
{
}

/// A newly opened position is the journal's first entry, and the entries
/// before it follow in their old order, the oldest falling off past the cap.
pub proof fn lemma_opened_is_newest<T>(journal: Seq<T>, entry: T)
    requires
        journal.len() <= TRADE_BUFFER_CAP,
    ensures
        after_opened(journal, entry)[0] == entry,
        after_opened(journal, entry) == (seq![entry] + journal).take(
            if journal.len() < TRADE_BUFFER_CAP { (journal.len() + 1) as int } else { TRADE_BUFFER_CAP as int },
        ),
{
    let s = seq![entry] + journal;
    assert(s.drop_last() =~= s.take(s.len() - 1));
    assert(s =~= s.take(s.len() as int));
}

/// A historical trade is the journal's last entry, the entries before it
/// keep their order, and past the cap the oldest (front) one falls off.
pub proof fn lemma_historical_is_last<T>(journal: Seq<T>, entry: T)
    requires
        journal.len() <= TRADE_BUFFER_CAP,
    ensures
        after_historical(journal, entry).last() == entry,
        after_historical(journal, entry) == journal.push(entry).skip(
            if journal.len() < TRADE_BUFFER_CAP { 0 } else { 1 },
        ),
{
    let s = journal.push(entry);
    assert(s.drop_first() =~= s.skip(1));
    assert(s =~= s.skip(0));
}

} // verus!
