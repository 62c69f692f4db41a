//! The lane pool: how many lanes it has, and which lane a comment takes.
//!
//! The motion of comments is computed in floating point, outside this
//! library. What a lane answers to a comment reaches the library as plain
//! values: a lane is empty, or free for the comment, or asks it to wait, and
//! the wait is given as a key, an integer that orders waits as their lengths
//! do. The share of the height that the lanes may use reaches it as a
//! fraction of two integers.
use vstd::prelude::*;

verus! {

/// Number of lanes in a share of the height of the screen: the share, which
/// is the fraction `share_num / share_den`, times the height, divided by the
/// lane height, rounded down.
pub open spec fn lane_count_of(share_num: u32, share_den: u32, height: u32, lane_size: u32) -> nat {
    ((share_num * height) / (share_den * lane_size)) as nat
}

/// Number of lanes in a share of the height, as `lane_count_of` defines it.
pub fn lane_count(share_num: u32, share_den: u32, height: u32, lane_size: u32) -> (r: u64)
    requires
        share_den > 0,
        lane_size > 0,
    ensures
        r == lane_count_of(share_num, share_den, height, lane_size),
{
    assert(share_num * height <= u32::MAX * u32::MAX) by (nonlinear_arith)
        requires
            0 <= share_num <= u32::MAX,
            0 <= height <= u32::MAX,
    ;
    assert(0 < share_den * lane_size <= u32::MAX * u32::MAX) by (nonlinear_arith)
        requires
            0 < share_den <= u32::MAX,
            0 < lane_size <= u32::MAX,
    ;
    let share: u64 = share_num as u64 * height as u64;
    let per_lane: u64 = share_den as u64 * lane_size as u64;
    share / per_lane
}

/// What a lane answers to a comment that asks to enter it.
#[derive(Debug, Clone, Copy, PartialEq, Eq, Structural)]
pub enum Vacancy {
    /// No comment has entered the lane yet.
    Empty,
    /// The comment may enter at once, behind the last comment of the lane.
    Free,
    /// The comment would collide with the last comment of the lane unless
    /// it waits. A smaller key is a shorter wait.
    Wait { key: u64 },
}

/// The lane that a comment takes.
#[derive(Debug, Clone, Copy, PartialEq, Eq, Structural)]
pub enum Choice {
    /// This lane, at once.
    AtOnce(usize),
    /// This lane, after the wait it asks for; no lane takes the comment at
    /// once.
    AfterWait(usize),
    /// None: there is no lane.
    NoLane,
}

/// Whether a lane takes a comment at once.
pub open spec fn is_open(lane: Vacancy) -> bool {
    !(lane is Wait)
}

/// The key of the wait that a lane asks for; zero for a lane that asks
/// for none.
pub open spec fn wait_key(lane: Vacancy) -> u64 {
    match lane {
        Vacancy::Wait { key } => key,
        _ => 0,
    }
}

/// `i` is the first of `lanes` that takes a comment at once.
pub open spec fn is_first_open(lanes: Seq<Vacancy>, i: int) -> bool {
    &&& 0 <= i < lanes.len()
    &&& is_open(lanes[i])
    &&& forall|j: int| 0 <= j < i ==> !is_open(#[trigger] lanes[j])
}

/// `i` is the first among `lanes` with the least wait.
pub open spec fn is_least_wait(lanes: Seq<Vacancy>, i: int) -> bool {
    &&& 0 <= i < lanes.len()
    &&& forall|j: int| 0 <= j < lanes.len() ==> wait_key(lanes[i]) <= wait_key(#[trigger] lanes[j])
    &&& forall|j: int| 0 <= j < i ==> wait_key(lanes[i]) < wait_key(#[trigger] lanes[j])
}

/// The lane that a comment takes: the first lane that takes it at once,
/// whatever the lanes after it answer; where no lane does, the first lane
/// with the least wait.
pub open spec fn choice_of(lanes: Seq<Vacancy>) -> Choice {
    if exists|i: int| is_first_open(lanes, i) {
        Choice::AtOnce((choose|i: int| is_first_open(lanes, i)) as usize)
    } else if exists|i: int| is_least_wait(lanes, i) {
        Choice::AfterWait((choose|i: int| is_least_wait(lanes, i)) as usize)
    } else {
        Choice::NoLane
    }
}

/// A lane that is open, with none before it open, is the one chosen.
proof fn lemma_first_open(lanes: Seq<Vacancy>, i: int)
    requires
        is_first_open(lanes, i),
        i <= usize::MAX,
    ensures
        choice_of(lanes) == Choice::AtOnce(i as usize),
{
    let c = choose|c: int| is_first_open(lanes, c);
    assert(is_first_open(lanes, c));
    if c < i {
        assert(!is_open(lanes[c]));
    } else if i < c {
        assert(!is_open(lanes[i]));
    }
}

/// Where no lane is open, a first lane of least wait is the one chosen.
proof fn lemma_least_wait(lanes: Seq<Vacancy>, i: int)
    requires
        forall|j: int| 0 <= j < lanes.len() ==> !is_open(#[trigger] lanes[j]),
        is_least_wait(lanes, i),
        i <= usize::MAX,
    ensures
        choice_of(lanes) == Choice::AfterWait(i as usize),
{
    let c = choose|c: int| is_least_wait(lanes, c);
    assert(is_least_wait(lanes, c));
    if c < i {
        assert(wait_key(lanes[i]) < wait_key(lanes[c]));
        assert(wait_key(lanes[c]) <= wait_key(lanes[i]));
    } else if i < c {
        assert(wait_key(lanes[c]) < wait_key(lanes[i]));
        assert(wait_key(lanes[i]) <= wait_key(lanes[c]));
    }
}

/// One more lane, which is not open, keeps or replaces the first lane of
/// least wait among those before it.
proof fn lemma_least_wait_step(lanes: Seq<Vacancy>, idx: int, best: Option<(u64, usize)>, better: bool)
    requires
        0 <= idx < lanes.len(),
        idx == 0 <==> best is None,
        best matches Some((wait, at)) ==> {
            &&& is_least_wait(lanes.take(idx), at as int)
            &&& wait == wait_key(lanes[at as int])
        },
        better == match best {
            Some((wait, _)) => wait_key(lanes[idx]) < wait,
            None => true,
        },
    ensures
        better ==> is_least_wait(lanes.take(idx + 1), idx),
        !better ==> (best matches Some((_, at)) && is_least_wait(lanes.take(idx + 1), at as int)),
{
    let before = lanes.take(idx);
    let after = lanes.take(idx + 1);
    assert forall|j: int| 0 <= j < idx implies #[trigger] after[j] == before[j] by {}
    assert(after[idx] == lanes[idx]);
    match best {
        Some((wait, at)) => {
            let a = at as int;
            assert(before[a] == lanes[a]);
            if better {
                assert forall|j: int| 0 <= j < after.len() implies wait_key(after[idx])
                    <= wait_key(#[trigger] after[j]) by {
                    if j < idx {
                        assert(wait_key(before[a]) <= wait_key(before[j]));
                    }
                }
                assert forall|j: int| 0 <= j < idx implies wait_key(after[idx]) < wait_key(
                    #[trigger] after[j],
                ) by {
                    assert(wait_key(before[a]) <= wait_key(before[j]));
                }
            } else {
                assert forall|j: int| 0 <= j < after.len() implies wait_key(after[a]) <= wait_key(
                    #[trigger] after[j],
                ) by {
                    if j < idx {
                        assert(wait_key(before[a]) <= wait_key(before[j]));
                    }
                }
                assert forall|j: int| 0 <= j < a implies wait_key(after[a]) < wait_key(
                    #[trigger] after[j],
                ) by {
                    assert(wait_key(before[a]) < wait_key(before[j]));
                }
            }
        },
        None => {},
    }
}

/// Chooses the lane that a comment takes, as `choice_of` defines it.
pub fn choose_lane(lanes: &Vec<Vacancy>) -> (r: Choice)
    ensures
        r == choice_of(lanes@),
        match r {
            Choice::AtOnce(i) => is_first_open(lanes@, i as int),
            Choice::AfterWait(i) => {
                &&& is_least_wait(lanes@, i as int)
                &&& forall|j: int| 0 <= j < lanes@.len() ==> !is_open(#[trigger] lanes@[j])
            },
            Choice::NoLane => lanes@.len() == 0,
        },
{
    let n: usize = lanes.len();
    let mut best: Option<(u64, usize)> = None;
    let mut idx: usize = 0;
    while idx < n
        invariant
            idx <= n,
            n == lanes@.len(),
            forall|j: int| 0 <= j < idx ==> !is_open(#[trigger] lanes@[j]),
            idx == 0 <==> best is None,
            best matches Some((wait, at)) ==> {
                &&& is_least_wait(lanes@.take(idx as int), at as int)
                &&& wait == wait_key(lanes@[at as int])
            },
        decreases n - idx,
    {
        match lanes[idx] {
            Vacancy::Wait { key } => {
                let better: bool = match best {
                    Some((wait, _)) => key < wait,
                    None => true,
                };
                proof {
                    lemma_least_wait_step(lanes@, idx as int, best, better);
                }
                if better {
                    best = Some((key, idx));
                }
            },
            _ => {
                proof {
                    lemma_first_open(lanes@, idx as int);
                }
                return Choice::AtOnce(idx);
            },
        }
        idx += 1;
    }
    proof {
        assert(lanes@.take(n as int) =~= lanes@);
    }
    match best {
        Some((_, at)) => {
            proof {
                lemma_least_wait(lanes@, at as int);
            }
            Choice::AfterWait(at)
        },
        None => Choice::NoLane,
    }
}

} // verus!
