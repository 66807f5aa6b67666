use vstd::prelude::*;
use std::collections::HashSet;

verus! {

broadcast use vstd::std_specs::hash::group_hash_axioms;

/// The largest stream id handed out; ids run from 1 to this value and then
/// start again at 1. Id 0 is never handed out.
pub const MAX_STREAM_ID: u32 = 1073741822;

/// The id tried after `c` when looking for a free one.
pub open spec fn next_candidate(c: u32) -> u32 {
    if c == MAX_STREAM_ID {
        1
    } else {
        (c + 1) as u32
    }
}

/// The id tried `k` steps after starting at `cursor`.
pub open spec fn candidate(cursor: u32, k: nat) -> u32
    decreases k,
{
    if k == 0 {
        cursor
    } else {
        next_candidate(candidate(cursor, (k - 1) as nat))
    }
}

/// Whether some id in `1..=MAX_STREAM_ID` is not open.
pub open spec fn has_free_id(open: Set<u32>) -> bool {
    exists|id: u32| 1 <= id <= MAX_STREAM_ID && !open.contains(id)
}

/// Whether `id` is the first id, going round from `cursor`, that is not open.
pub open spec fn allocates(cursor: u32, open: Set<u32>, id: u32) -> bool {
    exists|k: nat|
        {
            &&& id == #[trigger] candidate(cursor, k)
            &&& !open.contains(id)
            &&& forall|j: nat| j < k ==> open.contains(#[trigger] candidate(cursor, j))
        }
}

/// One change that an operation makes to the cursor and the ids in use.
pub enum IdChange {
    /// An id was handed out by a search.
    Next(u32),
    /// An id was freed.
    Release(u32),
    /// An id chosen elsewhere was marked in use.
    Acquire(u32),
    /// Nothing changed.
    Keep,
}

/// The cursor `c1` and ids in use `open1` follow from `c0` and `open0` by `change`.
pub open spec fn id_step(c0: u32, open0: Set<u32>, change: IdChange, c1: u32, open1: Set<u32>) -> bool {
    match change {
        IdChange::Next(id) => {
            &&& allocates(c0, open0, id)
            &&& c1 == next_candidate(id)
            &&& open1 == open0.insert(id)
        },
        IdChange::Release(id) => c1 == c0 && open1 == open0.remove(id),
        IdChange::Acquire(id) => c1 == c0 && open1 == open0.insert(id),
        IdChange::Keep => c1 == c0 && open1 == open0,
    }
}

/// The cursors and sets of ids in use along a run of operations, each
/// following from the one before by the change at that place.
pub open spec fn id_run(cursors: Seq<u32>, opens: Seq<Set<u32>>, changes: Seq<IdChange>) -> bool {
    &&& cursors.len() == changes.len() + 1
    &&& opens.len() == changes.len() + 1
    &&& forall|i: int|
        0 <= i < changes.len() ==> id_step(cursors[i], opens[i], #[trigger] changes[i], cursors[i + 1], opens[i + 1])
}

/// Hands out stream ids round-robin, skipping those still open.
pub struct StreamIdGenerator {
    counter: u32,
    open_streams: HashSet<u32>,
}

/// Going round from a cursor in range, step `k` lands on the id
/// `(cursor - 1 + k) % MAX_STREAM_ID + 1`.
proof fn lemma_candidate_closed_form(cursor: u32, k: nat)
    requires
        1 <= cursor <= MAX_STREAM_ID,
    ensures
        candidate(cursor, k) as int == (cursor - 1 + k) % (MAX_STREAM_ID as int) + 1,
    decreases k,
{
    let m = MAX_STREAM_ID as int;
    if k > 0 {
        lemma_candidate_closed_form(cursor, (k - 1) as nat);
        let prev = (cursor - 1 + k - 1) % m;
        vstd::arithmetic::div_mod::lemma_fundamental_div_mod(cursor - 1 + k - 1, m);
        let q = (cursor - 1 + k - 1) / m;
        if prev == m - 1 {
            vstd::arithmetic::div_mod::lemma_fundamental_div_mod_converse(cursor - 1 + k, m, q + 1, 0);
        } else {
            vstd::arithmetic::div_mod::lemma_fundamental_div_mod_converse(cursor - 1 + k, m, q, prev + 1);
        }
    }
}

/// Every id in range is reached, going round from a cursor in range, within
/// `MAX_STREAM_ID` steps; after exactly `MAX_STREAM_ID` steps the cursor is back.
proof fn lemma_candidates_cover(cursor: u32, id: u32)
    requires
        1 <= cursor <= MAX_STREAM_ID,
        1 <= id <= MAX_STREAM_ID,
    ensures
        candidate(cursor, MAX_STREAM_ID as nat) == cursor,
        exists|k: nat| k < MAX_STREAM_ID && #[trigger] candidate(cursor, k) == id,
{
    let m = MAX_STREAM_ID as int;
    lemma_candidate_closed_form(cursor, MAX_STREAM_ID as nat);
    vstd::arithmetic::div_mod::lemma_fundamental_div_mod_converse(cursor - 1 + m, m, 1, cursor - 1);
    let k: nat = if id >= cursor { (id - cursor) as nat } else { (id + m - cursor) as nat };
    lemma_candidate_closed_form(cursor, k);
    if id >= cursor {
        vstd::arithmetic::div_mod::lemma_fundamental_div_mod_converse(cursor - 1 + k, m, 0, id - 1);
    } else {
        vstd::arithmetic::div_mod::lemma_fundamental_div_mod_converse(cursor - 1 + k, m, 1, id - 1);
    }
    assert(candidate(cursor, k) == id);
}

impl StreamIdGenerator {
    /// The id the next search starts from.
    pub closed spec fn cursor(&self) -> u32 {
        self.counter
    }

    /// The ids currently handed out and not released.
    pub closed spec fn open_ids(&self) -> Set<u32> {
        self.open_streams@
    }

    /// The cursor stays in `1..=MAX_STREAM_ID`.
    pub closed spec fn wf(&self) -> bool {
        1 <= self.counter <= MAX_STREAM_ID
    }

    pub fn new() -> (g: Self)
        ensures
            g.wf(),
            g.cursor() == 1,
            g.open_ids() == Set::<u32>::empty(),
    {
        Self { counter: 1, open_streams: HashSet::new() }
    }

    /// Looks for the first free id going round from the cursor; when there is
    /// one, hands it out and moves the cursor just past it. When every id in
    /// range is open, nothing changes.
    pub fn try_next(&mut self) -> (r: Option<u32>)
        requires
            old(self).wf(),
        ensures
            final(self).wf(),
            r is Some <==> has_free_id(old(self).open_ids()),
            r is None ==> final(self).cursor() == old(self).cursor() && final(self).open_ids() == old(self).open_ids(),
            id_step(
                old(self).cursor(),
                old(self).open_ids(),
                match r {
                    Some(id) => IdChange::Next(id),
                    None => IdChange::Keep,
                },
                final(self).cursor(),
                final(self).open_ids(),
            ),
            r matches Some(id) ==> {
                &&& allocates(old(self).cursor(), old(self).open_ids(), id)
                &&& 1 <= id <= MAX_STREAM_ID
                &&& !old(self).open_ids().contains(id)
                &&& final(self).open_ids() == old(self).open_ids().insert(id)
                &&& final(self).cursor() == next_candidate(id)
            },
    {
        let ghost c0 = self.counter;
        let ghost open = self.open_streams@;
        let mut steps: u32 = 0;
        while self.open_streams.contains(&self.counter)
            invariant_except_break
                steps < MAX_STREAM_ID,
            invariant
                1 <= c0 <= MAX_STREAM_ID,
                1 <= self.counter <= MAX_STREAM_ID,
                self.open_streams@ == open,
                self.counter == candidate(c0, steps as nat),
                forall|j: nat| j < steps ==> open.contains(#[trigger] candidate(c0, j)),
            ensures
                steps < MAX_STREAM_ID ==> !open.contains(self.counter),
                steps == MAX_STREAM_ID ==> forall|j: nat| j < MAX_STREAM_ID ==> open.contains(#[trigger] candidate(c0, j)),
                steps <= MAX_STREAM_ID,
            decreases MAX_STREAM_ID - steps,
        {
            self.counter = if self.counter == MAX_STREAM_ID {
                1
            } else {
                self.counter + 1
            };
            steps = steps + 1;
            if steps == MAX_STREAM_ID {
                break;
            }
        }
        if steps == MAX_STREAM_ID {
            proof {
                lemma_candidates_cover(c0, 1);
                assert(!has_free_id(open)) by {
                    assert forall|id: u32| 1 <= id <= MAX_STREAM_ID implies open.contains(id) by {
                        lemma_candidates_cover(c0, id);
                    }
                }
            }
            return None;
        }
        let next_id = self.counter;
        self.open_streams.insert(next_id);
        self.counter = if self.counter == MAX_STREAM_ID {
            1
        } else {
            self.counter + 1
        };
        proof {
            assert(candidate(c0, steps as nat) == next_id);
        }
        Some(next_id)
    }

    /// Hands out the first free id going round from the cursor and moves the
    /// cursor just past it. Some id in range must be free: with every id open
    /// the search would never end.
    pub fn next(&mut self) -> (id: u32)
        requires
            old(self).wf(),
            has_free_id(old(self).open_ids()),
        ensures
            final(self).wf(),
            allocates(old(self).cursor(), old(self).open_ids(), id),
            1 <= id <= MAX_STREAM_ID,
            !old(self).open_ids().contains(id),
            final(self).open_ids() == old(self).open_ids().insert(id),
            final(self).cursor() == next_candidate(id),
            id_step(old(self).cursor(), old(self).open_ids(), IdChange::Next(id), final(self).cursor(), final(self).open_ids()),
    {
        match self.try_next() {
            Some(id) => id,
            None => {
                proof {
                    assert(false);
                }
                0
            },
        }
    }

    /// Marks an id free again.
    pub fn release_id(&mut self, id: u32)
        requires
            old(self).wf(),
        ensures
            final(self).wf(),
            final(self).cursor() == old(self).cursor(),
            final(self).open_ids() == old(self).open_ids().remove(id),
            id_step(old(self).cursor(), old(self).open_ids(), IdChange::Release(id), final(self).cursor(), final(self).open_ids()),
    {
        self.open_streams.remove(&id);
    }

    /// Marks an id open, as one the peer chose.
    pub fn acquire_id(&mut self, id: u32)
        requires
            old(self).wf(),
        ensures
            final(self).wf(),
            final(self).cursor() == old(self).cursor(),
            final(self).open_ids() == old(self).open_ids().insert(id),
            id_step(old(self).cursor(), old(self).open_ids(), IdChange::Acquire(id), final(self).cursor(), final(self).open_ids()),
    {
        self.open_streams.insert(id);
    }
}

/// The id a search hands out lies in `1..=MAX_STREAM_ID` and is not open, when
/// the search starts from a cursor in range.
pub proof fn lemma_allocated_id_in_range(cursor: u32, open: Set<u32>, id: u32)
    requires
        1 <= cursor <= MAX_STREAM_ID,
        allocates(cursor, open, id),
    ensures
        1 <= id <= MAX_STREAM_ID,
        !open.contains(id),
{
    let k = choose|k: nat|
        {
            &&& id == #[trigger] candidate(cursor, k)
            &&& !open.contains(id)
            &&& forall|j: nat| j < k ==> open.contains(#[trigger] candidate(cursor, j))
        };
    lemma_candidate_closed_form(cursor, k);
}

/// A search hands out exactly one id: two ids that both qualify are equal.
pub proof fn lemma_allocation_unique(cursor: u32, open: Set<u32>, a: u32, b: u32)
    requires
        allocates(cursor, open, a),
        allocates(cursor, open, b),
    ensures
        a == b,
{
    let ka = choose|k: nat|
        {
            &&& a == #[trigger] candidate(cursor, k)
            &&& !open.contains(a)
            &&& forall|j: nat| j < k ==> open.contains(#[trigger] candidate(cursor, j))
        };
    let kb = choose|k: nat|
        {
            &&& b == #[trigger] candidate(cursor, k)
            &&& !open.contains(b)
            &&& forall|j: nat| j < k ==> open.contains(#[trigger] candidate(cursor, j))
        };
    if ka < kb {
        assert(open.contains(candidate(cursor, ka)));
    } else if kb < ka {
        assert(open.contains(candidate(cursor, kb)));
    }
}

/// Ids handed out one after the other, with no release between, differ: the
/// second search skips the id the first one opened.
pub proof fn lemma_successive_ids_differ(g0: StreamIdGenerator, g1: StreamIdGenerator, a: u32, b: u32)
    requires
        allocates(g0.cursor(), g0.open_ids(), a),
        g1.open_ids() == g0.open_ids().insert(a),
        allocates(g1.cursor(), g1.open_ids(), b),
    ensures
        a != b,
{
}

/// Handing out an id and then releasing it leaves the open ids as they were.
pub proof fn lemma_next_then_release(open: Set<u32>, id: u32)
    requires
        !open.contains(id),
    ensures
        open.insert(id).remove(id) == open,
{
    assert(open.insert(id).remove(id) =~= open);
}

/// Along any run of operations that starts with the cursor in range (as a new
/// generator does, at 1), the cursor stays in `1..=MAX_STREAM_ID` after every
/// operation.
pub proof fn lemma_cursor_stays_in_range(cursors: Seq<u32>, opens: Seq<Set<u32>>, changes: Seq<IdChange>)
    requires
        id_run(cursors, opens, changes),
        1 <= cursors[0] <= MAX_STREAM_ID,
    ensures
        forall|i: int| 0 <= i < cursors.len() ==> 1 <= #[trigger] cursors[i] <= MAX_STREAM_ID,
{
    assert forall|i: int| 0 <= i < cursors.len() implies 1 <= #[trigger] cursors[i] <= MAX_STREAM_ID by {
        lemma_cursor_prefix(cursors, opens, changes, i);
    }
}

proof fn lemma_cursor_prefix(cursors: Seq<u32>, opens: Seq<Set<u32>>, changes: Seq<IdChange>, i: int)
    requires
        id_run(cursors, opens, changes),
        1 <= cursors[0] <= MAX_STREAM_ID,
        0 <= i < cursors.len(),
    ensures
        1 <= cursors[i] <= MAX_STREAM_ID,
    decreases i,
{
    if i > 0 {
        lemma_cursor_prefix(cursors, opens, changes, i - 1);
        assert(id_step(cursors[i - 1], opens[i - 1], changes[i - 1], cursors[i], opens[i]));
        if let IdChange::Next(id) = changes[i - 1] {
            lemma_allocated_id_in_range(cursors[i - 1], opens[i - 1], id);
        }
    }
}

/// An id handed out stays in use along a run until a change frees it.
proof fn lemma_id_stays_in_use(
    cursors: Seq<u32>,
    opens: Seq<Set<u32>>,
    changes: Seq<IdChange>,
    a: u32,
    i: int,
    k: int,
)
    requires
        id_run(cursors, opens, changes),
        0 <= i < k <= changes.len(),
        changes[i] == IdChange::Next(a),
        forall|m: int| i < m < k ==> #[trigger] changes[m] != IdChange::Release(a),
    ensures
        opens[k].contains(a),
    decreases k - i,
{
    assert(id_step(cursors[k - 1], opens[k - 1], changes[k - 1], cursors[k], opens[k]));
    if k - 1 > i {
        lemma_id_stays_in_use(cursors, opens, changes, a, i, k - 1);
    }
}

/// Two ids handed out at two places of a run, with no freeing of the first in
/// between, differ, and neither is 0: streams opened from this side that are
/// both still open never share an id.
pub proof fn lemma_open_ids_distinct(
    cursors: Seq<u32>,
    opens: Seq<Set<u32>>,
    changes: Seq<IdChange>,
    a: u32,
    b: u32,
    i: int,
    j: int,
)
    requires
        id_run(cursors, opens, changes),
        1 <= cursors[0] <= MAX_STREAM_ID,
        0 <= i < j < changes.len(),
        changes[i] == IdChange::Next(a),
        changes[j] == IdChange::Next(b),
        forall|m: int| i < m < j ==> #[trigger] changes[m] != IdChange::Release(a),
    ensures
        a != b,
        a != 0,
        b != 0,
{
    lemma_id_stays_in_use(cursors, opens, changes, a, i, j);
    lemma_cursor_prefix(cursors, opens, changes, i);
    lemma_cursor_prefix(cursors, opens, changes, j);
    assert(id_step(cursors[i], opens[i], changes[i], cursors[i + 1], opens[i + 1]));
    assert(id_step(cursors[j], opens[j], changes[j], cursors[j + 1], opens[j + 1]));
    lemma_allocated_id_in_range(cursors[i], opens[i], a);
    lemma_allocated_id_in_range(cursors[j], opens[j], b);
}

/// The search starts at the cursor: when the cursor's id is free it is the one
/// handed out, and an id in use is never handed out.
pub proof fn lemma_search_starts_at_cursor(cursor: u32, open: Set<u32>, id: u32)
    requires
        allocates(cursor, open, id),
    ensures
        !open.contains(cursor) ==> id == cursor,
        open.contains(cursor) ==> id != cursor,
        !open.contains(id),
{
    let k = choose|k: nat|
        {
            &&& id == #[trigger] candidate(cursor, k)
            &&& !open.contains(id)
            &&& forall|j: nat| j < k ==> open.contains(#[trigger] candidate(cursor, j))
        };
    if !open.contains(cursor) && k > 0 {
        assert(open.contains(candidate(cursor, 0)));
    }
}

} // verus!
