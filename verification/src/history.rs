//! Session history: committed entries, the current position, and what
//! navigation, traversal and reload do to them.
use vstd::prelude::*;

verus! {

/// One committed session-history entry.
#[derive(Clone, Debug, PartialEq, Eq)]
pub struct HistoryEntry {
    /// Monotonic entry sequence within this history.
    pub sequence: u64,
    /// Committed document URL.
    pub url: String,
}

/// A history as plain values: `(sequence, url)` entries, the current index
/// and the next sequence number.
pub struct HistoryModel {
    pub entries: Seq<(u64, Seq<char>)>,
    pub index: int,
    pub next_sequence: int,
}

pub open spec fn entries_model(es: Seq<HistoryEntry>) -> Seq<(u64, Seq<char>)> {
    Seq::new(es.len(), |i: int| (es[i].sequence, es[i].url@))
}

/// Committed entries and the position of the current document among them.
#[derive(Clone, Debug)]
pub struct SessionHistory {
    entries: Vec<HistoryEntry>,
    index: usize,
    next_sequence: u64,
}

impl View for SessionHistory {
    type V = HistoryModel;

    closed spec fn view(&self) -> HistoryModel {
        HistoryModel {
            entries: entries_model(self.entries@),
            index: self.index as int,
            next_sequence: self.next_sequence as int,
        }
    }
}

/// A history always has a current entry.
pub open spec fn history_wf(h: HistoryModel) -> bool {
    0 <= h.index < h.entries.len()
}

/// Committing a navigation from the current entry: later entries are
/// dropped and the new entry follows the current one.
pub open spec fn spec_commit_navigation(h: HistoryModel, url: Seq<char>) -> HistoryModel {
    HistoryModel {
        entries: h.entries.take(h.index + 1).push((h.next_sequence as u64, url)),
        index: h.index + 1,
        next_sequence: if h.next_sequence < u64::MAX {
            h.next_sequence + 1
        } else {
            h.next_sequence
        },
    }
}

/// Committing a traversal (or a reload) to entry `i`: that entry takes the
/// URL that was finally loaded and becomes current.
pub open spec fn spec_commit_traversal(h: HistoryModel, i: int, url: Seq<char>) -> HistoryModel {
    HistoryModel {
        entries: h.entries.update(i, (h.entries[i].0, url)),
        index: i,
        next_sequence: h.next_sequence,
    }
}

impl SessionHistory {
    /// A history holding only `url` as the current entry, with sequence 0.
    pub fn new(url: String) -> (r: Self)
        ensures
            history_wf(r@),
            r@.entries == seq![(0u64, url@)],
            r@.index == 0,
            r@.next_sequence == 1,
    {
        let r = SessionHistory {
            entries: vec![HistoryEntry { sequence: 0, url }],
            index: 0,
            next_sequence: 1,
        };
        assert(r@.entries =~= seq![(0u64, url@)]);
        r
    }

    /// The committed entries in order.
    pub fn entries(&self) -> (r: &[HistoryEntry])
        ensures
            entries_model(r@) == self@.entries,
    {
        self.entries.as_slice()
    }

    /// Position of the current entry.
    pub fn current_index(&self) -> (r: usize)
        ensures
            r == self@.index,
    {
        self.index
    }

    /// Whether a previous entry exists.
    pub fn can_go_back(&self) -> (r: bool)
        ensures
            r == (self@.index > 0),
    {
        self.index > 0
    }

    /// Whether a following entry exists.
    pub fn can_go_forward(&self) -> (r: bool)
        requires
            history_wf(self@),
        ensures
            r == (self@.index + 1 < self@.entries.len()),
    {
        let len = self.entries.len();
        self.index + 1 < len
    }

    /// The entry that going back traverses to.
    pub fn back_index(&self) -> (r: Option<usize>)
        ensures
            r == (if self@.index > 0 {
                Some((self@.index - 1) as usize)
            } else {
                None::<usize>
            }),
    {
        if self.index > 0 {
            Some(self.index - 1)
        } else {
            None
        }
    }

    /// The entry that going forward traverses to.
    pub fn forward_index(&self) -> (r: Option<usize>)
        requires
            history_wf(self@),
        ensures
            r == (if self@.index + 1 < self@.entries.len() {
                Some((self@.index + 1) as usize)
            } else {
                None::<usize>
            }),
    {
        let len = self.entries.len();
        if self.index + 1 < len {
            Some(self.index + 1)
        } else {
            None
        }
    }

    /// The URL of entry `i`.
    pub fn url_at(&self, i: usize) -> (r: &str)
        requires
            i < self@.entries.len(),
        ensures
            r@ == self@.entries[i as int].1,
    {
        self.entries[i].url.as_str()
    }

    /// Commits a navigation to `url` and returns the new current index.
    pub fn commit_navigation(&mut self, url: String) -> (r: usize)
        requires
            history_wf(old(self)@),
        ensures
            final(self)@ == spec_commit_navigation(old(self)@, url@),
            r == final(self)@.index,
            history_wf(final(self)@),
    {
        let len = self.entries.len();
        assert(self.index < len);
        let retained = self.index + 1;
        self.entries.truncate(retained);
        self.entries.push(HistoryEntry { sequence: self.next_sequence, url });
        self.next_sequence = if self.next_sequence < u64::MAX {
            self.next_sequence + 1
        } else {
            self.next_sequence
        };
        self.index = retained;
        assert(self@.entries =~= spec_commit_navigation(old(self)@, url@).entries);
        retained
    }

    /// Commits a traversal or reload to entry `i`, which finally loaded `url`.
    pub fn commit_traversal(&mut self, i: usize, url: String)
        requires
            history_wf(old(self)@),
            i < old(self)@.entries.len(),
        ensures
            final(self)@ == spec_commit_traversal(old(self)@, i as int, url@),
            history_wf(final(self)@),
    {
        let sequence = self.entries[i].sequence;
        self.entries.set(i, HistoryEntry { sequence, url });
        self.index = i;
        assert(self@.entries =~= spec_commit_traversal(old(self)@, i as int, url@).entries);
    }
}

/// After a navigation, going back returns to the entry that was current,
/// whose URL is unchanged, and nothing lies forward.
pub proof fn law_navigation_then_back(h: HistoryModel, url: Seq<char>)
    requires
        history_wf(h),
    ensures
        ({
            let n = spec_commit_navigation(h, url);
            &&& history_wf(n)
            &&& n.index - 1 == h.index
            &&& n.entries[h.index] == h.entries[h.index]
            &&& n.entries[n.index].1 == url
            &&& !(n.index + 1 < n.entries.len())
        }),
{
}

/// Navigating from an earlier entry replaces every entry after it.
pub proof fn law_navigation_branches(h: HistoryModel, url: Seq<char>)
    requires
        history_wf(h),
    ensures
        spec_commit_navigation(h, url).entries.len() == h.index + 2,
        forall|i: int|
            0 <= i <= h.index ==> #[trigger] spec_commit_navigation(h, url).entries[i] == h.entries[i],
{
}

/// Traversals and reloads never change how many entries there are, nor
/// any entry's sequence.
pub proof fn law_traversal_keeps_entries(h: HistoryModel, i: int, url: Seq<char>)
    requires
        history_wf(h),
        0 <= i < h.entries.len(),
    ensures
        spec_commit_traversal(h, i, url).entries.len() == h.entries.len(),
        forall|k: int|
            0 <= k < h.entries.len() ==> #[trigger] spec_commit_traversal(h, i, url).entries[k].0
                == h.entries[k].0,
{
}

/// Sequences increase along the history and stay below the next sequence.
pub open spec fn sequences_ordered(h: HistoryModel) -> bool {
    &&& forall|i: int, j: int|
        0 <= i < j < h.entries.len() ==> h.entries[i].0 < h.entries[j].0
    &&& forall|i: int| 0 <= i < h.entries.len() ==> h.entries[i].0 < h.next_sequence
}

/// While sequence numbers have not run out, every navigation keeps them
/// increasing along the history.
pub proof fn law_navigation_keeps_sequences_ordered(h: HistoryModel, url: Seq<char>)
    requires
        history_wf(h),
        sequences_ordered(h),
        0 <= h.next_sequence < u64::MAX,
    ensures
        sequences_ordered(spec_commit_navigation(h, url)),
{
    let n = spec_commit_navigation(h, url);
    assert forall|i: int, j: int| 0 <= i < j < n.entries.len() implies n.entries[i].0
        < n.entries[j].0 by {
        assert(n.entries[i] == h.entries[i]);
        if j < n.entries.len() - 1 {
            assert(n.entries[j] == h.entries[j]);
        }
    }
    assert forall|i: int| 0 <= i < n.entries.len() implies n.entries[i].0 < n.next_sequence by {
        if i < n.entries.len() - 1 {
            assert(n.entries[i] == h.entries[i]);
        }
    }
}

} // verus!
