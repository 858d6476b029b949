//! Encoded rows that wait to be written, sorted by where they go.
use crate::text::{same_text, smol_text};
use crate::tuples::{counted, counted_down, lemma_total_len, total_len, tuple_views};
use smol_str::SmolStr;
use vstd::prelude::*;

verus! {

/// How many rows and bytes may wait.
#[derive(Clone, Copy, Debug, PartialEq, Eq, Structural)]
pub struct CopyFlushThresholds {
    pub rows: usize,
    pub bytes: Option<usize>,
}

/// Why waiting rows are to be written.
#[derive(Clone, Copy, Debug, PartialEq, Eq, Structural)]
pub enum CopyFlushReasonKind {
    Rows,
    Bytes,
}

impl CopyFlushThresholds {
    pub fn new(rows: usize, bytes: Option<usize>) -> (thresholds: Self)
        ensures
            thresholds == (CopyFlushThresholds { rows, bytes }),
    {
        CopyFlushThresholds { rows, bytes }
    }

    /// Why `rows` rows of `bytes` bytes are to be written before one of `next_row_bytes` more
    /// bytes joins them: with it they would be too many. Where there are none, it may join.
    pub open spec fn excess(self, rows: int, bytes: int, next_row_bytes: int) -> Option<
        CopyFlushReasonKind,
    > {
        if rows == 0 {
            None
        } else if counted(rows + 1) > self.rows {
            Some(CopyFlushReasonKind::Rows)
        } else if self.bytes is Some && counted(bytes + next_row_bytes) > self.bytes->0 {
            Some(CopyFlushReasonKind::Bytes)
        } else {
            None
        }
    }

    /// Why `rows` rows of `bytes` bytes are to be written.
    pub open spec fn fullness(self, rows: int, bytes: int) -> Option<CopyFlushReasonKind> {
        if rows >= self.rows {
            Some(CopyFlushReasonKind::Rows)
        } else if self.bytes is Some && bytes >= self.bytes->0 {
            Some(CopyFlushReasonKind::Bytes)
        } else {
            None
        }
    }

    /// Why waiting rows are to be written before the next one joins them.
    pub fn would_exceed(self, rows: usize, bytes: usize, next_row_bytes: usize) -> (reason: Option<
        CopyFlushReasonKind,
    >)
        ensures
            reason == self.excess(rows as int, bytes as int, next_row_bytes as int),
    {
        if rows == 0 {
            return None;
        }
        if rows.saturating_add(1) > self.rows {
            return Some(CopyFlushReasonKind::Rows);
        }
        match self.bytes {
            Some(max_bytes) => if bytes.saturating_add(next_row_bytes) > max_bytes {
                Some(CopyFlushReasonKind::Bytes)
            } else {
                None
            },
            None => None,
        }
    }

    /// Why waiting rows are to be written.
    pub fn reached(self, rows: usize, bytes: usize) -> (reason: Option<CopyFlushReasonKind>)
        ensures
            reason == self.fullness(rows as int, bytes as int),
    {
        if rows >= self.rows {
            return Some(CopyFlushReasonKind::Rows);
        }
        match self.bytes {
            Some(max_bytes) => if bytes >= max_bytes {
                Some(CopyFlushReasonKind::Bytes)
            } else {
                None
            },
            None => None,
        }
    }
}

/// How many rows and bytes may wait in a session, and how many of them for one destination.
#[derive(Clone, Copy, Debug, PartialEq, Eq, Structural)]
pub struct CopyFlushThresholdsByScope {
    pub session: CopyFlushThresholds,
    pub destination: CopyFlushThresholds,
}

impl CopyFlushThresholdsByScope {
    pub fn new(session: CopyFlushThresholds, destination: CopyFlushThresholds) -> (scopes: Self)
        ensures
            scopes == (CopyFlushThresholdsByScope { session, destination }),
    {
        CopyFlushThresholdsByScope { session, destination }
    }
}

/// Where a row goes: to this instance, or to the replicaset of a name.
#[derive(Debug, PartialEq, Eq, Hash)]
pub enum CopyDestination {
    Local,
    Replicaset(SmolStr),
}

/// Where a row goes, with the name as a sequence of characters.
pub enum CopyDestinationView {
    Local,
    Replicaset(Seq<char>),
}

impl View for CopyDestination {
    type V = CopyDestinationView;

    open spec fn view(&self) -> CopyDestinationView {
        match *self {
            CopyDestination::Local => CopyDestinationView::Local,
            CopyDestination::Replicaset(name) => CopyDestinationView::Replicaset(smol_text(name)),
        }
    }
}

impl CopyDestination {
    /// Whether two destinations are one.
    pub fn same_as(&self, other: &CopyDestination) -> (same: bool)
        ensures
            same == (self@ == other@),
    {
        match (self, other) {
            (CopyDestination::Local, CopyDestination::Local) => true,
            (CopyDestination::Replicaset(left), CopyDestination::Replicaset(right)) => same_text(
                left.as_str(),
                right.as_str(),
            ),
            _ => false,
        }
    }
}

impl Clone for CopyDestination {
    fn clone(&self) -> (copy: Self)
        ensures
            copy@ == self@,
    {
        match self {
            CopyDestination::Local => CopyDestination::Local,
            CopyDestination::Replicaset(name) => CopyDestination::Replicaset(name.clone()),
        }
    }
}

/// An encoded row, and where it goes.
#[derive(Debug)]
pub struct PendingCopyRow {
    pub destination: CopyDestination,
    pub encoded_row: Vec<u8>,
}

impl PendingCopyRow {
    pub fn new(destination: CopyDestination, encoded_row: Vec<u8>) -> (row: Self)
        ensures
            row.destination == destination,
            row.encoded_row == encoded_row,
    {
        PendingCopyRow { destination, encoded_row }
    }

    /// How many bytes the row has.
    pub fn len(&self) -> (len: usize)
        ensures
            len == self.encoded_row@.len(),
    {
        self.encoded_row.len()
    }

    pub fn destination(&self) -> (destination: &CopyDestination)
        ensures
            *destination == self.destination,
    {
        &self.destination
    }
}

/// The rows that wait for one destination.
#[derive(Debug)]
pub struct DestinationBatch {
    pub encoded_rows: Vec<Vec<u8>>,
    pub bytes: usize,
}

impl View for DestinationBatch {
    type V = Seq<Seq<u8>>;

    open spec fn view(&self) -> Seq<Seq<u8>> {
        tuple_views(self.encoded_rows@)
    }
}

impl Default for DestinationBatch {
    fn default() -> (batch: Self)
        ensures
            batch.wf(),
            batch@ == Seq::<Seq<u8>>::empty(),
    {
        let batch = DestinationBatch { encoded_rows: Vec::new(), bytes: 0 };
        assert(batch@ =~= seq![]);
        batch
    }
}

impl DestinationBatch {
    /// Whether the bytes are counted right.
    pub open spec fn wf(&self) -> bool {
        self.bytes == counted(total_len(self@))
    }

    pub fn is_empty(&self) -> (empty: bool)
        ensures
            empty == (self@.len() == 0),
    {
        self.encoded_rows.len() == 0
    }

    /// Puts a row behind the others.
    pub fn push(&mut self, row: Vec<u8>)
        requires
            old(self).wf(),
        ensures
            final(self).wf(),
            final(self)@ == old(self)@.push(row@),
    {
        let ghost before = self@;
        self.bytes = self.bytes.saturating_add(row.len());
        self.encoded_rows.push(row);
        proof {
            assert(self@ =~= before.push(row@));
            assert(self@.drop_last() =~= before);
            lemma_total_len(before);
        }
    }

    /// How many bytes the rows have together.
    pub fn bytes(&self) -> (bytes: usize)
        requires
            self.wf(),
        ensures
            bytes == counted(total_len(self@)),
    {
        self.bytes
    }
}

/// The rows that wait for a destination.
pub type DestinationEntry = (CopyDestination, DestinationBatch);

/// The rows that wait for each destination.
pub open spec fn batch_map(entries: Seq<DestinationEntry>) -> Map<
    CopyDestinationView,
    Seq<Seq<u8>>,
>
    decreases entries.len(),
{
    if entries.len() == 0 {
        Map::empty()
    } else {
        batch_map(entries.drop_last()).insert(entries.last().0@, entries.last().1@)
    }
}

/// How many rows wait in all.
pub open spec fn row_count(entries: Seq<DestinationEntry>) -> int
    decreases entries.len(),
{
    if entries.len() == 0 {
        0
    } else {
        row_count(entries.drop_last()) + entries.last().1@.len()
    }
}

/// How many bytes wait in all.
pub open spec fn byte_count(entries: Seq<DestinationEntry>) -> int
    decreases entries.len(),
{
    if entries.len() == 0 {
        0
    } else {
        byte_count(entries.drop_last()) + total_len(entries.last().1@)
    }
}

/// The rows that wait, by destination, and how many rows and bytes they are. A destination has an
/// entry if and only if rows wait for it.
#[derive(Debug)]
pub struct PendingCopyRows {
    pub destinations: Vec<DestinationEntry>,
    pub rows: usize,
    pub bytes: usize,
}

impl View for PendingCopyRows {
    type V = Map<CopyDestinationView, Seq<Seq<u8>>>;

    open spec fn view(&self) -> Map<CopyDestinationView, Seq<Seq<u8>>> {
        batch_map(self.destinations@)
    }
}

/// The rows that wait for a destination, which may be none.
pub open spec fn waiting(
    rows: Map<CopyDestinationView, Seq<Seq<u8>>>,
    destination: CopyDestinationView,
) -> Seq<Seq<u8>> {
    if rows.dom().contains(destination) {
        rows[destination]
    } else {
        seq![]
    }
}

/// The rows that wait once a row has joined those for its destination.
pub open spec fn with_row(
    rows: Map<CopyDestinationView, Seq<Seq<u8>>>,
    destination: CopyDestinationView,
    row: Seq<u8>,
) -> Map<CopyDestinationView, Seq<Seq<u8>>> {
    rows.insert(destination, waiting(rows, destination).push(row))
}

/// Whether no destination has two entries, and none an empty one.
pub open spec fn entries_wf(entries: Seq<DestinationEntry>) -> bool {
    &&& forall|i: int, j: int|
        0 <= i < j < entries.len() ==> (#[trigger] entries[i]).0@ != (#[trigger] entries[j]).0@
    &&& forall|i: int|
        0 <= i < entries.len() ==> (#[trigger] entries[i]).1.wf() && entries[i].1@.len() > 0
}

proof fn lemma_batch_map(entries: Seq<DestinationEntry>)
    requires
        entries_wf(entries),
    ensures
        forall|i: int|
            0 <= i < entries.len() ==> batch_map(entries).dom().contains(
                (#[trigger] entries[i]).0@,
            ) && batch_map(entries)[entries[i].0@] == entries[i].1@,
        forall|destination: CopyDestinationView| #[trigger]
            batch_map(entries).dom().contains(destination) ==> exists|i: int|
                0 <= i < entries.len() && (#[trigger] entries[i]).0@ == destination,
    decreases entries.len(),
{
    if entries.len() > 0 {
        let fewer = entries.drop_last();
        assert(entries_wf(fewer)) by {
            assert forall|i: int, j: int| 0 <= i < j < fewer.len() implies (
            #[trigger] fewer[i]).0@ != (#[trigger] fewer[j]).0@ by {
                assert(entries[i].0@ != entries[j].0@);
            }
            assert forall|i: int| 0 <= i < fewer.len() implies (#[trigger] fewer[i]).1.wf()
                && fewer[i].1@.len() > 0 by {
                assert(entries[i].1.wf());
            }
        }
        lemma_batch_map(fewer);
        let map = batch_map(entries);
        assert forall|i: int| 0 <= i < entries.len() implies map.dom().contains(
            (#[trigger] entries[i]).0@,
        ) && map[entries[i].0@] == entries[i].1@ by {
            if i < entries.len() - 1 {
                assert(fewer[i] == entries[i]);
                assert(entries[i].0@ != entries[entries.len() - 1].0@);
            }
        }
        assert forall|destination: CopyDestinationView| #[trigger]
            map.dom().contains(destination) implies exists|i: int|
            0 <= i < entries.len() && (#[trigger] entries[i]).0@ == destination by {
            if destination == entries.last().0@ {
                assert(entries[entries.len() - 1].0@ == destination);
            } else {
                assert(batch_map(fewer).dom().contains(destination));
                let i = choose|i: int|
                    0 <= i < fewer.len() && (#[trigger] fewer[i]).0@ == destination;
                assert(entries[i].0@ == destination);
            }
        }
    }
}

/// What a change of the rows of one destination does to the counts.
proof fn lemma_counts_update(entries: Seq<DestinationEntry>, at: int, entry: DestinationEntry)
    requires
        0 <= at < entries.len(),
    ensures
        row_count(entries.update(at, entry)) == row_count(entries) - entries[at].1@.len()
            + entry.1@.len(),
        byte_count(entries.update(at, entry)) == byte_count(entries) - total_len(entries[at].1@)
            + total_len(entry.1@),
    decreases entries.len(),
{
    let updated = entries.update(at, entry);
    if at == entries.len() - 1 {
        assert(updated.drop_last() =~= entries.drop_last());
    } else {
        lemma_counts_update(entries.drop_last(), at, entry);
        assert(updated.drop_last() =~= entries.drop_last().update(at, entry));
    }
}

/// Counts are not negative, and each entry is counted.
proof fn lemma_counts(entries: Seq<DestinationEntry>)
    ensures
        row_count(entries) >= 0,
        byte_count(entries) >= 0,
        forall|i: int|
            0 <= i < entries.len() ==> row_count(entries) >= (#[trigger] entries[i]).1@.len()
                && byte_count(entries) >= total_len(entries[i].1@),
    decreases entries.len(),
{
    if entries.len() > 0 {
        let fewer = entries.drop_last();
        lemma_counts(fewer);
        lemma_total_len(entries.last().1@);
        assert forall|i: int| 0 <= i < entries.len() implies row_count(entries) >= (
        #[trigger] entries[i]).1@.len() && byte_count(entries) >= total_len(entries[i].1@) by {
            if i < fewer.len() {
                assert(fewer[i] == entries[i]);
            }
        }
    }
}

impl Default for PendingCopyRows {
    fn default() -> (pending: Self)
        ensures
            pending.wf(),
            pending.is_exact(),
            pending@ == Map::<CopyDestinationView, Seq<Seq<u8>>>::empty(),
            pending.rows == 0,
            pending.bytes == 0,
    {
        PendingCopyRows { destinations: Vec::new(), rows: 0, bytes: 0 }
    }
}

impl PendingCopyRows {
    /// Whether no destination has two entries, and none an empty one.
    pub open spec fn wf(&self) -> bool {
        entries_wf(self.destinations@)
    }

    /// Whether the counts are those of the rows. They are, unless there ever were more rows or
    /// bytes than the machine can count.
    pub open spec fn is_exact(&self) -> bool {
        &&& self.rows == row_count(self.destinations@)
        &&& self.bytes == byte_count(self.destinations@)
    }

    pub fn is_empty(&self) -> (empty: bool)
        ensures
            empty == (self.rows == 0),
            self.wf() && self.is_exact() ==> empty == (self@ == Map::<
                CopyDestinationView,
                Seq<Seq<u8>>,
            >::empty()),
    {
        proof {
            if self.wf() && self.is_exact() {
                lemma_batch_map(self.destinations@);
                lemma_counts(self.destinations@);
                let empty = Map::<CopyDestinationView, Seq<Seq<u8>>>::empty();
                if self.destinations@.len() > 0 {
                    assert(self@.dom().contains(self.destinations@[0].0@));
                    assert(!empty.dom().contains(self.destinations@[0].0@));
                } else {
                    assert(self@ == empty);
                }
            }
        }
        self.rows == 0
    }

    /// Where the entry of a destination is.
    fn find(&self, destination: &CopyDestination) -> (found: Option<usize>)
        requires
            self.wf(),
        ensures
            match found {
                Some(at) => at < self.destinations@.len() && self.destinations@[at as int].0@
                    == destination@ && self@.dom().contains(destination@) && self@[destination@]
                    == self.destinations@[at as int].1@,
                None => !self@.dom().contains(destination@) && forall|i: int|
                    0 <= i < self.destinations@.len() ==> (#[trigger] self.destinations@[i]).0@
                        != destination@,
            },
    {
        proof {
            lemma_batch_map(self.destinations@);
        }
        let mut idx: usize = 0;
        while idx < self.destinations.len()
            invariant
                idx <= self.destinations@.len(),
                self.wf(),
                forall|i: int|
                    0 <= i < idx ==> (#[trigger] self.destinations@[i]).0@ != destination@,
            decreases self.destinations@.len() - idx,
        {
            if self.destinations[idx].0.same_as(destination) {
                proof {
                    lemma_batch_map(self.destinations@);
                }
                return Some(idx);
            }
            idx += 1;
        }
        None
    }

    /// The rows that wait for a destination, where any do.
    pub fn destination(&self, destination: &CopyDestination) -> (batch: Option<&DestinationBatch>)
        requires
            self.wf(),
        ensures
            match batch {
                Some(found) => self@.dom().contains(destination@) && found@ == self@[destination@]
                    && found.wf() && found@.len() > 0,
                None => !self@.dom().contains(destination@),
            },
    {
        match self.find(destination) {
            Some(at) => {
                assert(self.destinations@[at as int].1.wf());
                Some(&self.destinations[at].1)
            },
            None => None,
        }
    }

    /// Whether rows wait for a destination.
    pub fn contains_destination(&self, destination: &CopyDestination) -> (contains: bool)
        requires
            self.wf(),
        ensures
            contains == self@.dom().contains(destination@),
    {
        self.find(destination).is_some()
    }

    /// The rows that wait, by destination.
    pub fn destinations(&self) -> (entries: &Vec<DestinationEntry>)
        ensures
            entries@ == self.destinations@,
    {
        &self.destinations
    }

    /// Why the rows that wait for the destination of a row are to be written before it joins them.
    pub fn destination_would_exceed(
        &self,
        row: &PendingCopyRow,
        limits: CopyFlushThresholds,
    ) -> (reason: Option<CopyFlushReasonKind>)
        requires
            self.wf(),
        ensures
            reason == limits.excess(
                waiting(self@, row.destination@).len() as int,
                counted(total_len(waiting(self@, row.destination@))),
                row.encoded_row@.len() as int,
            ),
    {
        match self.destination(&row.destination) {
            Some(batch) => limits.would_exceed(batch.encoded_rows.len(), batch.bytes, row.len()),
            None => None,
        }
    }

    /// Why all rows that wait are to be written before a row joins them.
    pub fn session_would_exceed(
        &self,
        row: &PendingCopyRow,
        limits: CopyFlushThresholds,
    ) -> (reason: Option<CopyFlushReasonKind>)
        ensures
            reason == limits.excess(
                self.rows as int,
                self.bytes as int,
                row.encoded_row@.len() as int,
            ),
    {
        limits.would_exceed(self.rows, self.bytes, row.len())
    }

    /// Why the rows that wait for a destination are to be written.
    pub fn destination_reached(
        &self,
        destination: &CopyDestination,
        limits: CopyFlushThresholds,
    ) -> (reason: Option<CopyFlushReasonKind>)
        requires
            self.wf(),
        ensures
            reason == if self@.dom().contains(destination@) {
                limits.fullness(
                    self@[destination@].len() as int,
                    counted(total_len(self@[destination@])),
                )
            } else {
                None
            },
    {
        match self.destination(destination) {
            Some(batch) => limits.reached(batch.encoded_rows.len(), batch.bytes),
            None => None,
        }
    }

    /// Why all rows that wait are to be written.
    pub fn session_reached(&self, limits: CopyFlushThresholds) -> (reason: Option<
        CopyFlushReasonKind,
    >)
        ensures
            reason == limits.fullness(self.rows as int, self.bytes as int),
    {
        limits.reached(self.rows, self.bytes)
    }

    /// Puts a row behind those that wait for its destination, and tells where it goes.
    pub fn push(&mut self, row: PendingCopyRow) -> (destination: CopyDestination)
        requires
            old(self).wf(),
        ensures
            final(self).wf(),
            destination@ == row.destination@,
            final(self)@ == with_row(old(self)@, row.destination@, row.encoded_row@),
            final(self).rows == counted(old(self).rows + 1),
            final(self).bytes == counted(old(self).bytes + row.encoded_row@.len()),
            old(self).is_exact() && old(self).rows < usize::MAX && old(self).bytes
                + row.encoded_row@.len() <= usize::MAX ==> final(self).is_exact(),
    {
        let ghost before = self.destinations@;
        let ghost view = row.destination@;
        let ghost bytes = row.encoded_row@;
        let destination = row.destination.clone();
        let row_bytes = row.encoded_row.len();
        proof {
            lemma_batch_map(before);
        }
        match self.find(&destination) {
            Some(at) => {
                proof {
                    assert(before[at as int].1.wf());
                    let rows = before[at as int].1@;
                    assert(rows.push(bytes).drop_last() =~= rows);
                }
                self.destinations[at].1.push(row.encoded_row);
                proof {
                    let after = self.destinations@;
                    let entry = after[at as int];
                    assert(after =~= before.update(at as int, entry));
                    lemma_counts_update(before, at as int, entry);
                    lemma_entries_update(before, at as int, entry);
                    assert(self@ =~= with_row(old(self)@, view, bytes));
                }
            },
            None => {
                let mut batch = DestinationBatch::default();
                batch.push(row.encoded_row);
                self.destinations.push((row.destination, batch));
                proof {
                    let after = self.destinations@;
                    assert(after.drop_last() =~= before);
                    assert(after.last().1@ =~= seq![bytes]);
                    assert(seq![bytes].drop_last() =~= seq![]);
                    assert(waiting(old(self)@, view).push(bytes) =~= seq![bytes]);
                    assert forall|i: int, j: int| 0 <= i < j < after.len() implies (
                    #[trigger] after[i]).0@ != (#[trigger] after[j]).0@ by {
                        if j == before.len() {
                            assert(before[i].0@ != destination@);
                        } else {
                            assert(before[i].0@ != before[j].0@);
                        }
                    }
                    assert forall|i: int| 0 <= i < after.len() implies (
                    #[trigger] after[i]).1.wf() && after[i].1@.len() > 0 by {
                        if i < before.len() {
                            assert(before[i].1.wf());
                        }
                    }
                }
            },
        }
        self.rows = self.rows.saturating_add(1);
        self.bytes = self.bytes.saturating_add(row_bytes);
        destination
    }

    /// Takes the rows out that wait for a destination.
    pub fn take_destination(&mut self, destination: &CopyDestination) -> (batch: Option<
        DestinationBatch,
    >)
        requires
            old(self).wf(),
        ensures
            final(self).wf(),
            final(self)@ == old(self)@.remove(destination@),
            old(self).is_exact() ==> final(self).is_exact(),
            match batch {
                Some(taken) => {
                    &&& old(self)@.dom().contains(destination@)
                    &&& taken@ == old(self)@[destination@]
                    &&& taken.wf()
                    &&& final(self).rows == counted_down(
                        old(self).rows as int,
                        taken@.len() as int,
                    )
                    &&& final(self).bytes == counted_down(
                        old(self).bytes as int,
                        counted(total_len(taken@)),
                    )
                },
                None => {
                    &&& !old(self)@.dom().contains(destination@)
                    &&& *final(self) == *old(self)
                },
            },
    {
        let ghost before = self.destinations@;
        let at: usize = match self.find(destination) {
            Some(at) => at,
            None => {
                assert(self@ =~= old(self)@.remove(destination@));
                return None;
            },
        };
        proof {
            lemma_batch_map(before);
            lemma_counts(before);
        }
        let (_, batch) = self.destinations.swap_remove(at);
        proof {
            lemma_entries_swap_remove(before, at as int, self.destinations@);
        }
        self.rows = self.rows.saturating_sub(batch.encoded_rows.len());
        self.bytes = self.bytes.saturating_sub(batch.bytes);
        Some(batch)
    }

    /// Drops all rows.
    pub fn clear(&mut self)
        ensures
            final(self).wf(),
            final(self).is_exact(),
            final(self)@ == Map::<CopyDestinationView, Seq<Seq<u8>>>::empty(),
            final(self).rows == 0,
            final(self).bytes == 0,
    {
        self.rows = 0;
        self.bytes = 0;
        self.destinations.clear();
    }
}

/// A change of the rows of one destination leaves the others as they are.
proof fn lemma_entries_update(entries: Seq<DestinationEntry>, at: int, entry: DestinationEntry)
    requires
        entries_wf(entries),
        0 <= at < entries.len(),
        entry.0@ == entries[at].0@,
        entry.1.wf(),
        entry.1@.len() > 0,
    ensures
        entries_wf(entries.update(at, entry)),
        batch_map(entries.update(at, entry)) == batch_map(entries).insert(entry.0@, entry.1@),
{
    let updated = entries.update(at, entry);
    assert forall|i: int, j: int| 0 <= i < j < updated.len() implies (#[trigger] updated[i]).0@
        != (#[trigger] updated[j]).0@ by {
        assert(entries[i].0@ != entries[j].0@);
    }
    assert forall|i: int| 0 <= i < updated.len() implies (#[trigger] updated[i]).1.wf()
        && updated[i].1@.len() > 0 by {
        assert(entries[i].1.wf());
    }
    lemma_batch_map(entries);
    let inserted = batch_map(entries).insert(entry.0@, entry.1@);
    assert forall|i: int| 0 <= i < updated.len() implies inserted.dom().contains(
        (#[trigger] updated[i]).0@,
    ) && inserted[updated[i].0@] == updated[i].1@ by {
        if i < at {
            assert(entries[i].0@ != entries[at].0@);
        } else if i > at {
            assert(entries[at].0@ != entries[i].0@);
        }
    }
    assert forall|destination: CopyDestinationView| #[trigger]
        inserted.dom().contains(destination) implies exists|i: int|
        0 <= i < updated.len() && (#[trigger] updated[i]).0@ == destination by {
        if destination == entry.0@ {
            assert(updated[at].0@ == destination);
        } else {
            assert(batch_map(entries).dom().contains(destination));
            let i = choose|i: int|
                0 <= i < entries.len() && (#[trigger] entries[i]).0@ == destination;
            assert(updated[i].0@ == destination);
        }
    }
    lemma_same_map(updated, inserted);
}

/// A map that has what the entries have, and no more, is the map of the entries.
proof fn lemma_same_map(
    entries: Seq<DestinationEntry>,
    map: Map<CopyDestinationView, Seq<Seq<u8>>>,
)
    requires
        entries_wf(entries),
        forall|i: int|
            0 <= i < entries.len() ==> map.dom().contains((#[trigger] entries[i]).0@)
                && map[entries[i].0@] == entries[i].1@,
        forall|destination: CopyDestinationView| #[trigger]
            map.dom().contains(destination) ==> exists|i: int|
                0 <= i < entries.len() && (#[trigger] entries[i]).0@ == destination,
    ensures
        batch_map(entries) == map,
{
    lemma_batch_map(entries);
    let own = batch_map(entries);
    assert forall|destination: CopyDestinationView| #[trigger]
        own.dom().contains(destination) == map.dom().contains(destination) by {
        if own.dom().contains(destination) {
            let i = choose|i: int|
                0 <= i < entries.len() && (#[trigger] entries[i]).0@ == destination;
            assert(map.dom().contains(entries[i].0@));
        }
        if map.dom().contains(destination) {
            let i = choose|i: int|
                0 <= i < entries.len() && (#[trigger] entries[i]).0@ == destination;
            assert(own.dom().contains(entries[i].0@));
        }
    }
    assert forall|destination: CopyDestinationView| #[trigger]
        own.dom().contains(destination) implies own[destination] == map[destination] by {
        let i = choose|i: int|
            0 <= i < entries.len() && (#[trigger] entries[i]).0@ == destination;
        assert(own[entries[i].0@] == entries[i].1@);
    }
    assert(own =~= map);
}

/// An entry that is taken out, with the last one put in its place, leaves the others as they are.
proof fn lemma_entries_swap_remove(
    entries: Seq<DestinationEntry>,
    at: int,
    left: Seq<DestinationEntry>,
)
    requires
        entries_wf(entries),
        0 <= at < entries.len(),
        left == entries.update(at, entries.last()).drop_last(),
    ensures
        entries_wf(left),
        batch_map(left) == batch_map(entries).remove(entries[at].0@),
        row_count(left) == row_count(entries) - entries[at].1@.len(),
        byte_count(left) == byte_count(entries) - total_len(entries[at].1@),
{
    let last = entries.len() - 1;
    let removed = batch_map(entries).remove(entries[at].0@);
    lemma_batch_map(entries);
    assert forall|i: int, j: int| 0 <= i < j < left.len() implies (#[trigger] left[i]).0@ != (
    #[trigger] left[j]).0@ by {
        let from_i = if i == at {
            last
        } else {
            i
        };
        let from_j = if j == at {
            last
        } else {
            j
        };
        assert(left[i] == entries[from_i] && left[j] == entries[from_j]);
        assert(from_i < from_j || from_j < from_i);
        if from_i < from_j {
            assert(entries[from_i].0@ != entries[from_j].0@);
        } else {
            assert(entries[from_j].0@ != entries[from_i].0@);
        }
    }
    assert forall|i: int| 0 <= i < left.len() implies (#[trigger] left[i]).1.wf()
        && left[i].1@.len() > 0 by {
        let from = if i == at {
            last
        } else {
            i
        };
        assert(left[i] == entries[from]);
        assert(entries[from].1.wf());
    }
    assert forall|i: int| 0 <= i < left.len() implies removed.dom().contains(
        (#[trigger] left[i]).0@,
    ) && removed[left[i].0@] == left[i].1@ by {
        let from = if i == at {
            last
        } else {
            i
        };
        assert(left[i] == entries[from]);
        assert(entries[from].0@ != entries[at].0@) by {
            if from < at {
                assert(entries[from].0@ != entries[at].0@);
            } else {
                assert(entries[at].0@ != entries[from].0@);
            }
        }
    }
    assert forall|destination: CopyDestinationView| #[trigger]
        removed.dom().contains(destination) implies exists|i: int|
        0 <= i < left.len() && (#[trigger] left[i]).0@ == destination by {
        assert(batch_map(entries).dom().contains(destination));
        let i = choose|i: int|
            0 <= i < entries.len() && (#[trigger] entries[i]).0@ == destination;
        if i == last {
            assert(left[at].0@ == destination);
        } else {
            assert(left[i].0@ == destination);
        }
    }
    lemma_same_map(left, removed);
    lemma_counts_update(entries, at, entries.last());
    assert(entries.update(at, entries.last()).last() == entries.last());
}

/// The rows that wait once rows have come one by one.
pub open spec fn with_rows(rows: Seq<(CopyDestinationView, Seq<u8>)>) -> Map<
    CopyDestinationView,
    Seq<Seq<u8>>,
>
    decreases rows.len(),
{
    if rows.len() == 0 {
        Map::empty()
    } else {
        with_row(with_rows(rows.drop_last()), rows.last().0, rows.last().1)
    }
}

/// The rows of a list that go to a destination, in order.
pub open spec fn rows_for(
    rows: Seq<(CopyDestinationView, Seq<u8>)>,
    destination: CopyDestinationView,
) -> Seq<Seq<u8>>
    decreases rows.len(),
{
    if rows.len() == 0 {
        seq![]
    } else if rows.last().0 == destination {
        rows_for(rows.drop_last(), destination).push(rows.last().1)
    } else {
        rows_for(rows.drop_last(), destination)
    }
}

/// What waits for a destination is what has come for it, in the order in which it came, whatever
/// has come for others in between; and only destinations for which rows have come have any.
pub proof fn law_rows_wait_in_order(
    rows: Seq<(CopyDestinationView, Seq<u8>)>,
    destination: CopyDestinationView,
)
    ensures
        waiting(with_rows(rows), destination) == rows_for(rows, destination),
        with_rows(rows).dom().contains(destination) == (rows_for(rows, destination).len() > 0),
    decreases rows.len(),
{
    if rows.len() > 0 {
        law_rows_wait_in_order(rows.drop_last(), destination);
    }
}

/// Once the rows of a destination are taken out, none wait for it, and those of the others wait
/// as before.
pub proof fn law_taking_leaves_other_destinations_alone(
    rows: Map<CopyDestinationView, Seq<Seq<u8>>>,
    taken: CopyDestinationView,
    other: CopyDestinationView,
)
    ensures
        waiting(rows.remove(taken), taken) == Seq::<Seq<u8>>::empty(),
        other != taken ==> waiting(rows.remove(taken), other) == waiting(rows, other),
{
}

/// Rows are to be written before another joins them exactly where there are some, and with it they
/// would be more than the threshold of rows, or else more bytes than the threshold of bytes, where
/// there is one.
pub proof fn law_rows_give_way_exactly_where_they_would_be_too_many(
    thresholds: CopyFlushThresholds,
    rows: nat,
    bytes: nat,
    next_row_bytes: nat,
)
    requires
        rows < usize::MAX,
        bytes + next_row_bytes <= usize::MAX,
    ensures
        ({
            let reason = thresholds.excess(rows as int, bytes as int, next_row_bytes as int);
            let rows_exceed = rows > 0 && rows + 1 > thresholds.rows;
            let bytes_exceed = rows > 0 && (thresholds.bytes matches Some(max) && bytes
                + next_row_bytes > max);
            &&& reason == Some(CopyFlushReasonKind::Rows) <==> rows_exceed
            &&& reason == Some(CopyFlushReasonKind::Bytes) <==> !rows_exceed && bytes_exceed
            &&& reason is None <==> !rows_exceed && !bytes_exceed
        }),
{
}

/// Rows are to be written exactly where they are as many as the threshold of rows, or else as many
/// bytes as the threshold of bytes, where there is one.
pub proof fn law_rows_are_full_exactly_at_the_thresholds(
    thresholds: CopyFlushThresholds,
    rows: nat,
    bytes: nat,
)
    ensures
        ({
            let reason = thresholds.fullness(rows as int, bytes as int);
            let rows_full = rows >= thresholds.rows;
            let bytes_full = thresholds.bytes matches Some(max) && bytes >= max;
            &&& reason == Some(CopyFlushReasonKind::Rows) <==> rows_full
            &&& reason == Some(CopyFlushReasonKind::Bytes) <==> !rows_full && bytes_full
            &&& reason is None <==> !rows_full && !bytes_full
        }),
{
}

/// What waits by destination is what the entries hold: each entry is found under its destination,
/// row by row, and nothing else is.
pub proof fn law_entries_are_what_waits(entries: Seq<DestinationEntry>, at: int)
    requires
        entries_wf(entries),
    ensures
        0 <= at < entries.len() ==> batch_map(entries).dom().contains(entries[at].0@) && batch_map(
            entries,
        )[entries[at].0@].len() == entries[at].1.encoded_rows@.len() && forall|i: int|
            0 <= i < entries[at].1.encoded_rows@.len() ==> #[trigger] batch_map(
                entries,
            )[entries[at].0@][i] == entries[at].1.encoded_rows@[i]@,
        forall|destination: CopyDestinationView| #[trigger]
            batch_map(entries).dom().contains(destination) ==> exists|i: int|
                0 <= i < entries.len() && (#[trigger] entries[i]).0@ == destination,
{
    lemma_batch_map(entries);
}

/// The counts of all rows and bytes are those of the entries together.
pub proof fn law_counts_add_up(entries: Seq<DestinationEntry>, entry: DestinationEntry)
    ensures
        row_count(seq![]) == 0,
        byte_count(seq![]) == 0,
        row_count(entries.push(entry)) == row_count(entries) + entry.1.encoded_rows@.len(),
        byte_count(entries.push(entry)) == byte_count(entries) + total_len(entry.1@),
{
    assert(entries.push(entry).drop_last() =~= entries);
}

/// A row joins those that wait for its destination, behind them, and changes nothing for any other.
pub proof fn law_row_joins_its_destination(
    rows: Map<CopyDestinationView, Seq<Seq<u8>>>,
    destination: CopyDestinationView,
    row: Seq<u8>,
    other: CopyDestinationView,
)
    ensures
        ({
            let after = with_row(rows, destination, row);
            &&& after.dom().contains(destination)
            &&& after[destination] == if rows.dom().contains(destination) {
                rows[destination].push(row)
            } else {
                seq![row]
            }
            &&& other != destination ==> after.dom().contains(other) == rows.dom().contains(other)
                && (rows.dom().contains(other) ==> after[other] == rows[other])
        }),
{
    if !rows.dom().contains(destination) {
        assert(with_row(rows, destination, row)[destination] =~= seq![row]);
    }
}

/// A row that may join rows makes them no more than the thresholds say, in rows and in bytes; and
/// rows that are not full are fewer than the thresholds say.
pub proof fn law_thresholds_are_kept(
    thresholds: CopyFlushThresholds,
    rows: nat,
    bytes: nat,
    next_row_bytes: nat,
)
    requires
        rows < usize::MAX,
        bytes + next_row_bytes <= usize::MAX,
    ensures
        rows > 0 && thresholds.excess(rows as int, bytes as int, next_row_bytes as int) is None
            ==> rows + 1 <= thresholds.rows && (thresholds.bytes matches Some(max) ==> bytes
            + next_row_bytes <= max),
        thresholds.fullness(rows as int, bytes as int) is None ==> rows < thresholds.rows && (
        thresholds.bytes matches Some(max) ==> bytes < max),
{
}

}
