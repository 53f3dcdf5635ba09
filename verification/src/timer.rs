//! The lap-time leaderboard: a fixed board of ten slots ordered by
//! ascending lap time. A new entry takes the first slot that is unused
//! or strictly slower, shifting later entries down and discarding the
//! one pushed past the end.

use vstd::prelude::*;

verus! {

/// One leaderboard entry: car number, generation, lap time in ticks.
/// A car number of zero marks an unused slot (cars are numbered from 1).
pub type LapTime = (usize, usize, u64);

/// Number of slots on the board.
pub const BOARD_SIZE: usize = 10;

/// The entry `t` may take slot `i` of board `s`: the slot is unused or
/// holds a strictly greater time.
pub open spec fn slot_open(s: Seq<LapTime>, i: int, t: LapTime) -> bool {
    s[i].0 == 0 || t.2 < s[i].2
}

/// A well-formed board: ten slots, the used ones forming a prefix with
/// ascending times.
pub open spec fn sorted_board(s: Seq<LapTime>) -> bool {
    &&& s.len() == BOARD_SIZE
    &&& forall|i: int, j: int| 0 <= i < j < s.len() && (#[trigger] s[j]).0 != 0 ==> (#[trigger] s[i]).0 != 0
    &&& forall|i: int, j: int|
        0 <= i < j < s.len() && (#[trigger] s[i]).0 != 0 && (#[trigger] s[j]).0 != 0 ==> s[i].2
            <= s[j].2
}

/// Index of the first slot of `s` from `i` on that is open to `t`;
/// -1 when none is.
pub open spec fn first_open(s: Seq<LapTime>, t: LapTime, i: int) -> int
    decreases s.len() - i,
{
    if i < 0 || i >= s.len() {
        -1
    } else if slot_open(s, i, t) {
        i
    } else {
        first_open(s, t, i + 1)
    }
}

/// The board after entering `t`: the shift-insert at the first open
/// slot, dropping the last entry; the board unchanged when no slot is
/// open.
pub open spec fn board_insert(s: Seq<LapTime>, t: LapTime) -> Seq<LapTime> {
    let i = first_open(s, t, 0);
    if i == -1 {
        s
    } else {
        s.subrange(0, i).push(t) + s.subrange(i, s.len() - 1)
    }
}

/// The scan that found slot `i` open and everything before it closed
/// pins down `first_open`.
proof fn lemma_first_open_found(s: Seq<LapTime>, t: LapTime, k: int, i: int)
    requires
        0 <= k <= i < s.len(),
        slot_open(s, i, t),
        forall|j: int| k <= j < i ==> !slot_open(s, j, t),
    ensures
        first_open(s, t, k) == i,
    decreases i - k,
{
    if k < i {
        lemma_first_open_found(s, t, k + 1, i);
    }
}

/// A scan that found every slot from `k` on closed pins `first_open`
/// to -1.
proof fn lemma_first_open_none(s: Seq<LapTime>, t: LapTime, k: int)
    requires
        0 <= k <= s.len(),
        forall|j: int| k <= j < s.len() ==> !slot_open(s, j, t),
    ensures
        first_open(s, t, k) == -1,
    decreases s.len() - k,
{
    if k < s.len() {
        lemma_first_open_none(s, t, k + 1);
    }
}

/// A board that rejects an entry no faster than everything on a full
/// board: no slot is open for it.
pub proof fn lemma_full_board_rejects(s: Seq<LapTime>, t: LapTime)
    requires
        sorted_board(s),
        s[s.len() - 1].0 != 0,
        t.2 >= s[s.len() - 1].2,
    ensures
        forall|i: int| 0 <= i < s.len() ==> !slot_open(s, i, t),
{
    assert forall|i: int| 0 <= i < s.len() implies !slot_open(s, i, t) by {
        assert(s[i].0 != 0);
        if i < s.len() - 1 {
            assert(s[i].2 <= s[s.len() - 1].2);
        }
    }
}

/// The leaderboard.
pub struct Timer {
    pub times: Vec<LapTime>,
}

impl Timer {
    /// Ten slots, all well formed.
    pub open spec fn wf(self) -> bool {
        sorted_board(self.times@)
    }

    /// An empty board.
    pub fn new() -> (r: Timer)
        ensures
            r.wf(),
            forall|i: int| 0 <= i < BOARD_SIZE ==> (#[trigger] r.times@[i]) == ((0usize, 0usize, 0u64)),
    {
        let mut times: Vec<LapTime> = Vec::new();
        let mut i: usize = 0;
        while i < BOARD_SIZE
            invariant
                i <= BOARD_SIZE,
                times@.len() == i,
                forall|k: int| 0 <= k < i ==> (#[trigger] times@[k]) == ((0usize, 0usize, 0u64)),
            decreases BOARD_SIZE - i,
        {
            times.push((0, 0, 0));
            i += 1;
        }
        Timer { times }
    }

    /// The last (slowest used, once the board fills) slot.
    pub fn get_slowest_time(&self) -> (r: LapTime)
        requires
            self.wf(),
        ensures
            r == self.times@[BOARD_SIZE - 1],
    {
        self.times[BOARD_SIZE - 1]
    }

    /// The first (fastest) slot.
    pub fn get_fastest_time(&self) -> (r: LapTime)
        requires
            self.wf(),
        ensures
            r == self.times@[0],
    {
        self.times[0]
    }

    /// A copy of the whole board in order.
    pub fn get_times(&self) -> (r: Vec<LapTime>)
        requires
            self.wf(),
        ensures
            r@ == self.times@,
    {
        let mut out: Vec<LapTime> = Vec::new();
        let mut i: usize = 0;
        while i < BOARD_SIZE
            invariant
                i <= BOARD_SIZE,
                self.times@.len() == BOARD_SIZE,
                out@.len() == i,
                forall|k: int| 0 <= k < i ==> (#[trigger] out@[k]) == self.times@[k],
            decreases BOARD_SIZE - i,
        {
            out.push(self.times[i]);
            i += 1;
        }
        proof {
            assert(out@ =~= self.times@);
        }
        out
    }

    /// Places `time` at the first slot that is unused or strictly
    /// slower, shifting later entries down one and discarding the last;
    /// returns the slot index, or -1 when no slot accepts it. Keeps the
    /// board well formed.
    pub fn enter_time(&mut self, time: LapTime) -> (r: i32)
        requires
            old(self).wf(),
            time.0 != 0,
        ensures
            final(self).wf(),
            -1 <= r < BOARD_SIZE,
            r == first_open(old(self).times@, time, 0),
            final(self).times@ =~= board_insert(old(self).times@, time),
            r >= 0 ==> {
                &&& slot_open(old(self).times@, r as int, time)
                &&& forall|j: int| 0 <= j < r ==> !slot_open(old(self).times@, j, time)
                &&& final(self).times@ =~= old(self).times@.subrange(0, r as int).push(
                    time,
                ) + old(self).times@.subrange(r as int, BOARD_SIZE - 1)
            },
            r == -1 ==> {
                &&& forall|j: int| 0 <= j < BOARD_SIZE ==> !slot_open(old(self).times@, j, time)
                &&& final(self).times@ == old(self).times@
            },
    {
        let ghost orig: Seq<LapTime> = old(self).times@;
        let mut i: usize = 0;
        while i < BOARD_SIZE
            invariant
                i <= BOARD_SIZE,
                self.times@ == orig,
                orig == old(self).times@,
                orig.len() == BOARD_SIZE,
                sorted_board(orig),
                time.0 != 0,
                forall|j: int| 0 <= j < i ==> !slot_open(orig, j, time),
            decreases BOARD_SIZE - i,
        {
            let t: LapTime = self.times[i];
            if t.0 == 0 || time.2 < t.2 {
                // shift the tail down one slot, dropping the last entry
                let mut j: usize = BOARD_SIZE - 1;
                while j > i
                    invariant
                        i <= j < BOARD_SIZE,
                        self.times@.len() == BOARD_SIZE,
                        orig == old(self).times@,
                        orig.len() == BOARD_SIZE,
                        sorted_board(orig),
                        time.0 != 0,
                        slot_open(orig, i as int, time),
                        forall|k: int| 0 <= k < i ==> !slot_open(orig, k, time),
                        forall|k: int| 0 <= k <= j ==> (#[trigger] self.times@[k]) == orig[k],
                        forall|k: int|
                            j < k < BOARD_SIZE ==> (#[trigger] self.times@[k]) == orig[k - 1],
                    decreases j - i,
                {
                    let v: LapTime = self.times[j - 1];
                    self.times.set(j, v);
                    j -= 1;
                }
                self.times.set(i, time);
                proof {
                    let fin = self.times@;
                    assert(orig == old(self).times@);
                    assert(slot_open(orig, i as int, time));
                    assert(fin =~= orig.subrange(0, i as int).push(time) + orig.subrange(
                        i as int,
                        BOARD_SIZE - 1,
                    ));
                    lemma_insert_keeps_sorted(orig, fin, time, i as int);
                    lemma_first_open_found(orig, time, 0, i as int);
                }
                return i as i32;
            }
            i += 1;
        }
        proof {
            lemma_first_open_none(old(self).times@, time, 0);
        }
        -1
    }
}

/// Inserting an entry at the first open slot of a sorted board keeps
/// the board sorted.
proof fn lemma_insert_keeps_sorted(orig: Seq<LapTime>, fin: Seq<LapTime>, time: LapTime, i: int)
    requires
        sorted_board(orig),
        0 <= i < orig.len(),
        time.0 != 0,
        slot_open(orig, i, time),
        forall|j: int| 0 <= j < i ==> !slot_open(orig, j, time),
        fin =~= orig.subrange(0, i).push(time) + orig.subrange(i, orig.len() - 1),
    ensures
        sorted_board(fin),
{
    assert(fin.len() == BOARD_SIZE);
    assert forall|a: int, b: int|
        0 <= a < b < fin.len() && (#[trigger] fin[b]).0 != 0 implies (#[trigger] fin[a]).0
        != 0 by {
        if a < i {
            assert(!slot_open(orig, a, time));
        }
    }
    assert forall|a: int, b: int|
        0 <= a < b < fin.len() && (#[trigger] fin[a]).0 != 0 && (#[trigger] fin[b]).0 != 0 implies
        fin[a].2 <= fin[b].2 by {
        if a < i {
            assert(!slot_open(orig, a, time));
            assert(fin[a] == orig[a]);
        }
        if b > i {
            assert(fin[b] == orig[b - 1]);
        }
    }
}

} // verus!
