use vstd::prelude::*;

use crate::pai::Pai;
use crate::tehai::Tehai;

verus! {

/// The largest hand that the shanten count takes: 255 tiles short of the
/// largest count an `i32` holds, which is where the search's own sums (such
/// as the tiles left against the tiles a decomposition uses) would overflow.
pub const MAX_HAND: i32 = 0x7FFF_FF00;

/// Whether `i` is the tenhou.net/6 number of a tile.
pub open spec fn valid_index(i: int) -> bool {
    Pai::from_id(i) is Some
}

/// A number tile: `11..=19`, `21..=29` or `31..=39`.
pub open spec fn is_suited(i: int) -> bool {
    (11 <= i <= 19) || (21 <= i <= 29) || (31 <= i <= 39)
}

/// A number tile from 1 to 7, which can start a run of three.
pub open spec fn starts_run(i: int) -> bool {
    (11 <= i < 18) || (21 <= i < 28) || (31 <= i < 38)
}

/// A honor tile: `41..=47`.
pub open spec fn is_honor(i: int) -> bool {
    41 <= i <= 47
}

/// A terminal or honor tile, of the kind that the thirteen orphans hand is
/// made of.
pub open spec fn is_yaochuu(i: int) -> bool {
    i == 11 || i == 19 || i == 21 || i == 29 || i == 31 || i == 39 || is_honor(i)
}

/// The counts `p` with one tile fewer at `i`.
pub open spec fn dec(p: Seq<i32>, i: int) -> Seq<i32> {
    p.update(i, (p[i] - 1) as i32)
}

/// The counts `p` with one tile more at `i`.
pub open spec fn inc(p: Seq<i32>, i: int) -> Seq<i32> {
    p.update(i, (p[i] + 1) as i32)
}

/// The counts `p` after taking away each tile of `m`.
pub open spec fn sub_each(p: Seq<i32>, m: Seq<Pai>) -> Seq<i32>
    decreases m.len(),
{
    if m.len() == 0 {
        p
    } else {
        dec(sub_each(p, m.drop_last()), m.last().unify_id() as int)
    }
}

/// The counts `p` after putting back each tile of `m`.
pub open spec fn add_each(p: Seq<i32>, m: Seq<Pai>) -> Seq<i32>
    decreases m.len(),
{
    if m.len() == 0 {
        p
    } else {
        inc(add_each(p, m.drop_last()), m.last().unify_id() as int)
    }
}

/// How many tiles of `m` count at index `i`.
pub open spec fn count_at(m: Seq<Pai>, i: int) -> int
    decreases m.len(),
{
    if m.len() == 0 {
        0
    } else {
        count_at(m.drop_last(), i) + if m.last().unify_id() == i {
            1int
        } else {
            0int
        }
    }
}

/// Taking away the tiles of `m` lowers each count by the tiles of `m` that
/// count there, and putting them back raises it by as many, where no count
/// leaves the bounds.
proof fn lemma_each_counts(p: Seq<i32>, m: Seq<Pai>)
    requires
        p.len() == 48,
        m.len() <= 3,
        forall|i: int| 0 <= i < p.len() ==> -MAX_HAND <= #[trigger] p[i] <= MAX_HAND,
    ensures
        sub_each(p, m).len() == p.len(),
        add_each(p, m).len() == p.len(),
        forall|i: int| 0 <= i < p.len() ==> #[trigger] sub_each(p, m)[i] == p[i] - count_at(m, i),
        forall|i: int| 0 <= i < p.len() ==> #[trigger] add_each(p, m)[i] == p[i] + count_at(m, i),
    decreases m.len(),
{
    if m.len() > 0 {
        lemma_each_counts(p, m.drop_last());
        lemma_unify_valid(m.last());
        assert forall|i: int| 0 <= i < p.len() implies 0 <= #[trigger] count_at(m.drop_last(), i)
            <= m.len() - 1 by {
            lemma_count_at_bound(m.drop_last(), i);
        }
    }
}

/// A count of a list is at most its length.
proof fn lemma_count_at_bound(m: Seq<Pai>, i: int)
    ensures
        0 <= count_at(m, i) <= m.len(),
    decreases m.len(),
{
    if m.len() > 0 {
        lemma_count_at_bound(m.drop_last(), i);
    }
}

/// Putting back the tiles that were taken away gives the counts back:
/// what the search takes it restores.
pub proof fn law_take_then_put_back(p: Seq<i32>, m: Seq<Pai>)
    requires
        p.len() == 48,
        m.len() <= 3,
        forall|i: int| 0 <= i < p.len() ==> 0 <= #[trigger] p[i] <= MAX_HAND,
    ensures
        add_each(sub_each(p, m), m) == p,
{
    lemma_each_counts(p, m);
    let q = sub_each(p, m);
    assert forall|i: int| 0 <= i < q.len() implies -MAX_HAND <= #[trigger] q[i] <= MAX_HAND by {
        lemma_count_at_bound(m, i);
    }
    lemma_each_counts(q, m);
    assert(add_each(q, m) =~= p);
}

/// The sum of the first `n` counts.
pub open spec fn sum_prefix(p: Seq<i32>, n: int) -> int
    decreases n,
{
    if n <= 0 {
        0
    } else {
        sum_prefix(p, n - 1) + p[n - 1]
    }
}

/// The number of tiles in `s` that count as the tile numbered `i`.
pub open spec fn unify_count(s: Seq<Pai>, i: int) -> int
    decreases s.len(),
{
    if s.len() == 0 {
        0
    } else {
        unify_count(s.drop_last(), i) + if s.last().unify_id() == i {
            1int
        } else {
            0int
        }
    }
}

/// The first meld of three (a triplet, or a run of three number tiles) found
/// at or after `idx`: the counts left after taking it, and where it starts.
pub open spec fn take3(p: Seq<i32>, idx: int) -> Option<(Seq<i32>, int)>
    decreases 48 - idx,
{
    if idx < 0 || idx >= 48 {
        None
    } else if p[idx] < 1 {
        take3(p, idx + 1)
    } else if is_suited(idx) {
        if p[idx] >= 3 {
            Some((p.update(idx, (p[idx] - 3) as i32), idx))
        } else if starts_run(idx) {
            if p[idx + 1] < 1 || p[idx + 2] < 1 {
                take3(p, idx + 1)
            } else {
                Some((dec(dec(dec(p, idx), idx + 1), idx + 2), idx))
            }
        } else {
            take3(p, idx + 1)
        }
    } else if is_honor(idx) && p[idx] >= 3 {
        Some((p.update(idx, (p[idx] - 3) as i32), idx))
    } else {
        take3(p, idx + 1)
    }
}

/// The first partial meld of two (a pair, two neighbours, or two number tiles
/// one apart) found at or after `idx`: the counts left after taking it, and
/// where it starts.
pub open spec fn take2(p: Seq<i32>, idx: int) -> Option<(Seq<i32>, int)>
    decreases 48 - idx,
{
    if idx < 0 || idx >= 48 {
        None
    } else if p[idx] < 1 {
        take2(p, idx + 1)
    } else if is_suited(idx) {
        if p[idx] > 1 {
            Some((p.update(idx, (p[idx] - 2) as i32), idx))
        } else if idx % 10 > 8 {
            take2(p, idx + 1)
        } else if p[idx + 1] > 0 {
            Some((dec(dec(p, idx), idx + 1), idx))
        } else if idx % 10 < 8 && p[idx + 2] > 0 {
            Some((dec(dec(p, idx), idx + 2), idx))
        } else {
            take2(p, idx + 1)
        }
    } else if is_honor(idx) && p[idx] > 1 {
        Some((p.update(idx, (p[idx] - 2) as i32), idx))
    } else {
        take2(p, idx + 1)
    }
}

/// The first index at or after `i` whose count is not zero, or 48.
pub open spec fn next_nonzero(p: Seq<i32>, i: int) -> int
    decreases 48 - i,
{
    if i < 0 || i >= 48 {
        48
    } else if p[i] > 0 {
        i
    } else {
        next_nonzero(p, i + 1)
    }
}

/// The number of melds of the hand's size that are already called.
pub open spec fn num_fuuros(nt: int) -> int {
    if nt <= 14 {
        (14 - nt) / 3
    } else {
        -((nt - 14) / 3)
    }
}

/// The shanten of a finished decomposition into `nm` melds, `nd` partial
/// melds and `ee` pairs (0 or 1), kept if it beats `s`; with the largest
/// number of tiles used by any decomposition so far.
pub open spec fn settle(s: int, cm: int, ee: int, nm: int, nd: int) -> (int, int) {
    let t = nm + nd + ee;
    let penalty = if t - 5 > 0 {
        t - 5
    } else {
        0
    };
    let q = if t <= 4 {
        1
    } else {
        ee
    };
    let cur = 9 - 2 * nm - (nd + ee) - q + penalty;
    let c = 3 * nm + 2 * nd + 2 * ee;
    (
        if cur < s {
            cur
        } else {
            s
        },
        if c > cm {
            c
        } else {
            cm
        },
    )
}

/// The search ended with every tile left counted as a lone tile.
pub open spec fn finish(s: int, cm: int, ee: int, nm: int, nd: int, nt: int) -> (int, int) {
    if s == -1 || nm + nd > nt {
        (s, cm)
    } else if 0 < cm - (3 * nm + 2 * nd + 2 * ee) {
        (s, cm)
    } else {
        settle(s, cm, ee, nm, nd)
    }
}

/// The search over partial melds: take the first partial meld from `begin`
/// on and search further, then count every tile left as a lone tile. The
/// result is the best shanten found and the most tiles used.
pub open spec fn search2(
    p: Seq<i32>,
    rem: int,
    begin: int,
    s: int,
    cm: int,
    ee: int,
    nm: int,
    nd: int,
    nt: int,
) -> (int, int)
    decreases rem,
{
    if s == -1 || nm + nd > nt {
        (s, cm)
    } else if rem < cm - (3 * nm + 2 * nd + 2 * ee) {
        (s, cm)
    } else if rem <= 0 {
        settle(s, cm, ee, nm, nd)
    } else {
        let first = match take2(p, begin) {
            Some((p2, idx)) => if rem >= 2 {
                search2(p2, rem - 2, idx, s, cm, ee, nm, nd + 1, nt)
            } else {
                (s, cm)
            },
            None => (s, cm),
        };
        finish(first.0, first.1, ee, nm, nd, nt)
    }
}

/// The search over melds: from `begin` on, take the first meld and search
/// further, then search again without it from the next tile on; after four
/// melds, or past the last tile, go on with the partial melds.
pub open spec fn search3(
    p: Seq<i32>,
    rem: int,
    level: int,
    begin: int,
    s: int,
    cm: int,
    ee: int,
    nm: int,
    nt: int,
) -> (int, int)
    decreases 4 - level, 48 - begin,
{
    if begin >= 48 || level > 3 {
        search2(p, rem, 11, s, cm, ee, nm, 0, nt)
    } else {
        let first = match take3(p, begin) {
            Some((p2, idx)) => if rem >= 3 {
                search3(p2, rem - 3, level + 1, idx, s, cm, ee, nm + 1, nt)
            } else {
                (s, cm)
            },
            None => (s, cm),
        };
        let next = next_nonzero(p, begin + 1);
        if next <= begin || next > 48 {
            first
        } else {
            search3(p, rem, level, next, first.0, first.1, ee, nm, nt)
        }
    }
}

/// The search over partial melds only improves on what it starts from: the
/// shanten it gives is never above the one it started with, and the tiles
/// used never fewer.
pub proof fn law_search2_improves(
    p: Seq<i32>,
    rem: int,
    begin: int,
    s: int,
    cm: int,
    ee: int,
    nm: int,
    nd: int,
    nt: int,
)
    ensures
        search2(p, rem, begin, s, cm, ee, nm, nd, nt).0 <= s,
        search2(p, rem, begin, s, cm, ee, nm, nd, nt).1 >= cm,
    decreases rem,
{
    if s == -1 || nm + nd > nt {
    } else if rem < cm - (3 * nm + 2 * nd + 2 * ee) {
    } else if rem <= 0 {
    } else {
        match take2(p, begin) {
            Some((p2, idx)) => if rem >= 2 {
                law_search2_improves(p2, rem - 2, idx, s, cm, ee, nm, nd + 1, nt);
            },
            None => {},
        }
    }
}

/// The search over melds only improves on what it starts from, as the
/// search over partial melds does.
pub proof fn law_search3_improves(
    p: Seq<i32>,
    rem: int,
    level: int,
    begin: int,
    s: int,
    cm: int,
    ee: int,
    nm: int,
    nt: int,
)
    ensures
        search3(p, rem, level, begin, s, cm, ee, nm, nt).0 <= s,
        search3(p, rem, level, begin, s, cm, ee, nm, nt).1 >= cm,
    decreases 4 - level, 48 - begin,
{
    if begin >= 48 || level > 3 {
        law_search2_improves(p, rem, 11, s, cm, ee, nm, 0, nt);
    } else {
        let first = match take3(p, begin) {
            Some((p2, idx)) => if rem >= 3 {
                law_search3_improves(p2, rem - 3, level + 1, idx, s, cm, ee, nm + 1, nt);
                search3(p2, rem - 3, level + 1, idx, s, cm, ee, nm + 1, nt)
            } else {
                (s, cm)
            },
            None => (s, cm),
        };
        let next = next_nonzero(p, begin + 1);
        if next <= begin || next > 48 {
        } else {
            law_search3_improves(p, rem, level, next, first.0, first.1, ee, nm, nt);
        }
    }
}

/// The tiles of which there are two or more, in ascending order.
pub open spec fn eye_list(p: Seq<i32>, i: int) -> Seq<Pai>
    decreases 48 - i,
{
    if i < 0 || i >= 48 {
        Seq::empty()
    } else if p[i] >= 2 && valid_index(i) {
        seq![Pai::from_id(i).unwrap()] + eye_list(p, i + 1)
    } else {
        eye_list(p, i + 1)
    }
}

/// The search with each tile of `eyes` in turn taken as the pair.
pub open spec fn over_eyes(
    p: Seq<i32>,
    rem: int,
    eyes: Seq<Pai>,
    s: int,
    cm: int,
    nf: int,
    nt: int,
) -> (int, int)
    decreases eyes.len(),
{
    if eyes.len() == 0 {
        (s, cm)
    } else {
        let i = eyes[0].unify_id() as int;
        let r = search3(p.update(i, (p[i] - 2) as i32), rem - 2, 0, 11, s, cm, 1, nf, nt);
        over_eyes(p, rem, eyes.drop_first(), r.0, r.1, nf, nt)
    }
}

/// The shanten for a hand of four melds and a pair, as the search finds it:
/// first with each possible pair, then with no pair.
pub open spec fn normal_shanten(p: Seq<i32>, rem: int, nt: int) -> int {
    let nf = num_fuuros(nt);
    let r = over_eyes(p, rem, eye_list(p, 0), 8, 0, nf, nt);
    search3(p, rem, 0, 11, r.0, r.1, 0, nf, nt).0
}

/// The number of kinds of terminal and honor tiles present from `i` on.
pub open spec fn yaochuu_kinds(p: Seq<i32>, i: int) -> int
    decreases 48 - i,
{
    if i < 0 || i >= 48 {
        0
    } else {
        yaochuu_kinds(p, i + 1) + if p[i] != 0 && is_yaochuu(i) {
            1int
        } else {
            0int
        }
    }
}

/// Whether a terminal or honor tile is present twice or more from `i` on.
pub open spec fn yaochuu_pair(p: Seq<i32>, i: int) -> bool
    decreases 48 - i,
{
    if i < 0 || i >= 48 {
        false
    } else {
        yaochuu_pair(p, i + 1) || (p[i] > 1 && is_yaochuu(i))
    }
}

/// The shanten for the thirteen orphans hand.
pub open spec fn kokushi_shanten(p: Seq<i32>, nt: int) -> int {
    if nt < 13 {
        8
    } else {
        13 - yaochuu_kinds(p, 0) - if yaochuu_pair(p, 0) {
            1int
        } else {
            0int
        }
    }
}

/// The number of kinds of tiles present from `i` on.
pub open spec fn kinds_from(p: Seq<i32>, i: int) -> int
    decreases 48 - i,
{
    if i < 0 || i >= 48 {
        0
    } else {
        kinds_from(p, i + 1) + if p[i] != 0 && valid_index(i) {
            1int
        } else {
            0int
        }
    }
}

/// The number of kinds of tiles present twice or more from `i` on.
pub open spec fn pairs_from(p: Seq<i32>, i: int) -> int
    decreases 48 - i,
{
    if i < 0 || i >= 48 {
        0
    } else {
        pairs_from(p, i + 1) + if p[i] >= 2 && valid_index(i) {
            1int
        } else {
            0int
        }
    }
}

/// The shanten for the seven pairs hand.
pub open spec fn chiitoi_shanten(p: Seq<i32>, nt: int) -> int {
    if nt < 13 {
        6
    } else {
        6 - pairs_from(p, 0) + if 7 - kinds_from(p, 0) > 0 {
            7 - kinds_from(p, 0)
        } else {
            0
        }
    }
}

proof fn lemma_sum_update(p: Seq<i32>, i: int, v: i32, n: int)
    requires
        0 <= i < p.len(),
        0 <= n <= p.len(),
    ensures
        sum_prefix(p.update(i, v), n) == sum_prefix(p, n) + if i < n {
            v - p[i]
        } else {
            0
        },
    decreases n,
{
    if n > 0 {
        lemma_sum_update(p, i, v, n - 1);
    }
}

proof fn lemma_count_le_sum(p: Seq<i32>, i: int, n: int)
    requires
        0 <= i < n <= p.len(),
        forall|j: int| 0 <= j < p.len() ==> 0 <= #[trigger] p[j],
    ensures
        p[i] <= sum_prefix(p, n),
    decreases n,
{
    if n - 1 > i {
        lemma_count_le_sum(p, i, n - 1);
    }
    lemma_sum_nonneg(p, n - 1);
}

proof fn lemma_sum_nonneg(p: Seq<i32>, n: int)
    requires
        0 <= n <= p.len(),
        forall|j: int| 0 <= j < p.len() ==> 0 <= #[trigger] p[j],
    ensures
        0 <= sum_prefix(p, n),
    decreases n,
{
    if n > 0 {
        lemma_sum_nonneg(p, n - 1);
    }
}

proof fn lemma_unify_valid(a: Pai)
    ensures
        valid_index(a.unify_id() as int),
        a.unify_id() < 48,
        Pai::from_id(a.unify_id() as int) == Some(a.spec_deaka()),
{
}

proof fn lemma_from_index_unify(i: int)
    requires
        valid_index(i),
        0 <= i < 48,
    ensures
        Pai::from_id(i).unwrap().unify_id() == i,
{
}

proof fn lemma_take3_facts(p: Seq<i32>, idx: int)
    requires
        p.len() == 48,
    ensures
        match take3(p, idx) {
            Some((p2, j)) => {
                &&& idx <= j < 48
                &&& p[j] >= 1
                &&& (is_suited(j) || is_honor(j))
                &&& if p[j] >= 3 {
                    p2 == p.update(j, (p[j] - 3) as i32)
                } else {
                    &&& starts_run(j)
                    &&& p[j + 1] >= 1
                    &&& p[j + 2] >= 1
                    &&& p2 == dec(dec(dec(p, j), j + 1), j + 2)
                }
            },
            None => true,
        },
    decreases 48 - idx,
{
    if 0 <= idx < 48 {
        lemma_take3_facts(p, idx + 1);
    }
}

proof fn lemma_next_nonzero(p: Seq<i32>, i: int)
    requires
        0 <= i <= 48,
    ensures
        i <= next_nonzero(p, i) <= 48,
    decreases 48 - i,
{
    if i < 48 {
        lemma_next_nonzero(p, i + 1);
    }
}

/// The counts of the tiles of a hand, with the search state of the shanten
/// count: how many tiles are left to place, and how many the hand holds.
pub struct ShantenHelper {
    pais: Vec<i32>,
    num_pais_rem: i32,
    num_tehai: i32,
}

impl ShantenHelper {
    /// The count of each tile, by tenhou.net/6 number (a red five counted as
    /// the plain five).
    pub closed spec fn counts(self) -> Seq<i32> {
        self.pais@
    }

    /// The number of tiles not yet placed by the search.
    pub closed spec fn remaining(self) -> int {
        self.num_pais_rem as int
    }

    /// The number of tiles in the hand.
    pub closed spec fn hand_size(self) -> int {
        self.num_tehai as int
    }

    /// The two hold the same counts and sizes.
    pub open spec fn same_as(self, other: ShantenHelper) -> bool {
        &&& self.counts() == other.counts()
        &&& self.remaining() == other.remaining()
        &&& self.hand_size() == other.hand_size()
    }

    /// The counts are those of a hand: non-negative, only for tiles, and
    /// adding up to the tiles not yet placed.
    pub closed spec fn wf(self) -> bool {
        &&& self.pais@.len() == 48
        &&& 0 <= self.num_pais_rem <= self.num_tehai <= MAX_HAND
        &&& forall|i: int| 0 <= i < 48 ==> 0 <= #[trigger] self.pais@[i] <= MAX_HAND
        &&& forall|i: int| 0 <= i < 48 && #[trigger] self.pais@[i] > 0 ==> valid_index(i)
        &&& sum_prefix(self.pais@, 48) == self.num_pais_rem
    }

    /// The counts of the tiles of a closed hand.
    pub fn new(tehai: &Tehai) -> (r: ShantenHelper)
        requires
            tehai.tiles().len() <= MAX_HAND,
        ensures
            r.wf(),
            r.counts().len() == 48,
            r.hand_size() == tehai.tiles().len(),
            r.remaining() == tehai.tiles().len(),
            forall|i: int| 0 <= i < 48 ==> #[trigger] r.counts()[i] == unify_count(tehai.tiles(), i),
    {
        let tiles = tehai.view();
        let mut pais: Vec<i32> = Vec::new();
        let mut i: usize = 0;
        while i < 48
            invariant
                i <= 48,
                pais@.len() == i,
                forall|j: int| 0 <= j < i ==> #[trigger] pais@[j] == 0,
            decreases 48 - i,
        {
            pais.push(0);
            i = i + 1;
        }
        proof {
            assert forall|n: int| 0 <= n <= 48 implies sum_prefix(pais@, n) == 0 by {
                lemma_zero_sum(pais@, n);
            }
        }
        let mut num_pais: i32 = 0;
        let mut k: usize = 0;
        while k < tiles.len()
            invariant
                tiles@ == tehai.tiles(),
                tiles@.len() <= MAX_HAND,
                k <= tiles.len(),
                num_pais == k,
                pais@.len() == 48,
                forall|j: int| 0 <= j < 48 ==> #[trigger] pais@[j] == unify_count(
                    tiles@.subrange(0, k as int),
                    j,
                ),
                forall|j: int| 0 <= j < 48 ==> 0 <= #[trigger] pais@[j] <= k,
                forall|j: int| 0 <= j < 48 && #[trigger] pais@[j] > 0 ==> valid_index(j),
                sum_prefix(pais@, 48) == k,
            decreases tiles.len() - k,
        {
            let t = tiles[k];
            let u = t.as_unify_u8() as usize;
            proof {
                lemma_unify_valid(t);
                let sub = tiles@.subrange(0, k as int);
                let sub1 = tiles@.subrange(0, k + 1);
                assert(sub1.drop_last() =~= sub);
                assert(sub1.last() == t);
                lemma_count_le_sum(pais@, u as int, 48);
                lemma_sum_update(pais@, u as int, (pais@[u as int] + 1) as i32, 48);
            }
            pais[u] = pais[u] + 1;
            num_pais = num_pais + 1;
            k = k + 1;
        }
        proof {
            assert(tiles@.subrange(0, tiles@.len() as int) =~= tiles@);
        }
        ShantenHelper { pais, num_pais_rem: num_pais, num_tehai: num_pais }
    }

    /// The shanten of the hand: the least of the thirteen orphans, seven
    /// pairs and four-melds-and-a-pair counts.
    pub fn get_shanten(&mut self) -> (r: i32)
        requires
            old(self).wf(),
            old(self).remaining() == old(self).hand_size(),
        ensures
            final(self).same_as(*old(self)),
            final(self).wf(),
            r == min3(
                kokushi_shanten(old(self).counts(), old(self).hand_size()),
                chiitoi_shanten(old(self).counts(), old(self).hand_size()),
                normal_shanten(old(self).counts(), old(self).remaining(), old(self).hand_size()),
            ),
    {
        let kokushi = self.get_kokushi_shanten();
        let chiitoi = self.get_chiitoi_shanten();
        let normal = self.get_normal_shanten();
        let a = if kokushi < chiitoi {
            kokushi
        } else {
            chiitoi
        };
        if a < normal {
            a
        } else {
            normal
        }
    }

    /// The shanten for the thirteen orphans hand: 8 for a hand with calls.
    pub fn get_kokushi_shanten(&self) -> (r: i32)
        requires
            self.wf(),
        ensures
            r == kokushi_shanten(self.counts(), self.hand_size()),
    {
        if self.num_tehai < 13 {
            return 8;
        }
        let mut num_kind: i32 = 0;
        let mut exist_pair = false;
        let mut idx: usize = 48;
        while idx > 0
            invariant
                idx <= 48,
                self.wf(),
                num_kind == yaochuu_kinds(self.pais@, idx as int),
                exist_pair == yaochuu_pair(self.pais@, idx as int),
                0 <= num_kind <= 48 - idx,
            decreases idx,
        {
            idx = idx - 1;
            let num = self.pais[idx];
            if num != 0 && is_yaochuu_exec(idx) {
                if num > 1 {
                    exist_pair = true;
                }
                num_kind = num_kind + 1;
            }
        }
        13 - num_kind - if exist_pair {
            1
        } else {
            0
        }
    }

    /// The shanten for the seven pairs hand: 6 for a hand with calls.
    pub fn get_chiitoi_shanten(&self) -> (r: i32)
        requires
            self.wf(),
        ensures
            r == chiitoi_shanten(self.counts(), self.hand_size()),
    {
        let mut shanten: i32 = 6;
        if self.num_tehai < 13 {
            return shanten;
        }
        let mut num_kind: i32 = 0;
        let mut num_pairs: i32 = 0;
        let mut idx: usize = 48;
        while idx > 0
            invariant
                idx <= 48,
                self.wf(),
                num_kind == kinds_from(self.pais@, idx as int),
                num_pairs == pairs_from(self.pais@, idx as int),
                0 <= num_pairs <= num_kind <= 48 - idx,
            decreases idx,
        {
            idx = idx - 1;
            let num = self.pais[idx];
            if num != 0 && Pai::from_u8(idx as u8).is_some() {
                if num >= 2 {
                    num_pairs = num_pairs + 1;
                }
                num_kind = num_kind + 1;
            }
        }
        shanten = shanten - num_pairs;
        if 7 - num_kind > 0 {
            shanten = shanten + (7 - num_kind);
        }
        shanten
    }

    /// The tiles present twice or more, in ascending order.
    fn eyes(&self) -> (r: Vec<Pai>)
        requires
            self.wf(),
        ensures
            r@ == eye_list(self.pais@, 0),
    {
        let mut eyes: Vec<Pai> = Vec::new();
        let mut idx: usize = 48;
        while idx > 0
            invariant
                idx <= 48,
                self.wf(),
                eyes@ == eye_list(self.pais@, idx as int),
            decreases idx,
        {
            idx = idx - 1;
            if self.pais[idx] >= 2 {
                match Pai::from_u8(idx as u8) {
                    Some(p) => {
                        let mut front: Vec<Pai> = Vec::new();
                        front.push(p);
                        front.append(&mut eyes);
                        eyes = front;
                        proof {
                            assert(eyes@ =~= eye_list(self.pais@, idx as int));
                        }
                    },
                    None => {},
                }
            }
        }
        eyes
    }

    /// The shanten for four melds and a pair, as the search finds it.
    pub fn get_normal_shanten(&mut self) -> (r: i32)
        requires
            old(self).wf(),
            old(self).remaining() == old(self).hand_size(),
        ensures
            final(self).same_as(*old(self)),
            final(self).wf(),
            r == normal_shanten(old(self).counts(), old(self).remaining(), old(self).hand_size()),
            -1 <= r <= 8,
    {
        let nf: i32 = (14 - self.num_tehai) / 3;
        let mut shanten: i32 = 8;
        let mut c_max: i32 = 0;
        let eyes = self.eyes();
        let ghost p = self.pais@;
        let ghost rem = self.num_pais_rem as int;
        let ghost nt = self.num_tehai as int;
        let ghost start = *self;
        proof {
            assert(nf == num_fuuros(nt));
            assert(eyes@.skip(0) =~= eyes@);
        }
        let mut j: usize = 0;
        while j < eyes.len()
            invariant
                self.same_as(start),
                self.wf(),
                p == self.pais@,
                rem == self.num_pais_rem,
                nt == self.num_tehai,
                rem == nt,
                nf == num_fuuros(nt),
                eyes@ == eye_list(p, 0),
                j <= eyes.len(),
                over_eyes(p, rem, eyes@, 8, 0, nf as int, nt) == over_eyes(
                    p,
                    rem,
                    eyes@.skip(j as int),
                    shanten as int,
                    c_max as int,
                    nf as int,
                    nt,
                ),
                shanten_bounds(shanten as int, c_max as int),
            decreases eyes.len() - j,
        {
            let eye = eyes[j];
            proof {
                lemma_eye_list_facts(p, 0, j as int);
                lemma_unify_valid(eye);
                assert forall|i: int| 0 <= i < 48 implies #[trigger] p[i] <= MAX_HAND by {
                    lemma_count_le_sum(p, i, 48);
                }
                lemma_count_le_sum(p, eye.unify_id() as int, 48);
            }
            let eye_array = [eye, eye];
            self.take(&eye_array);
            proof {
                lemma_sub_pair(p, eye);
                let u = eye.unify_id() as int;
                lemma_sum_update(p, u, (p[u] - 2) as i32, 48);
                assert(self.wf());
            }
            self.search_by_take_3(0, 11, &mut shanten, &mut c_max, 1, nf);
            self.rollback_pais(&eye_array);
            proof {
                lemma_add_pair(p.update(eye.unify_id() as int, (p[eye.unify_id() as int] - 2) as i32), eye);
                assert(self.pais@ =~= p);
                assert(eyes@.skip(j as int).drop_first() =~= eyes@.skip(j + 1));
            }
            j = j + 1;
        }
        self.search_by_take_3(0, 11, &mut shanten, &mut c_max, 0, nf);
        shanten
    }
}

impl ShantenHelper {
    /// Takes the given tiles away from the counts.
    fn take(&mut self, pais: &[Pai])
        requires
            old(self).pais@.len() == 48,
            pais@.len() <= 3,
            0 <= old(self).num_pais_rem <= MAX_HAND,
            forall|i: int| 0 <= i < 48 ==> 0 <= #[trigger] old(self).pais@[i] <= MAX_HAND,
        ensures
            final(self).pais@ == sub_each(old(self).pais@, pais@),
            final(self).num_pais_rem == old(self).num_pais_rem - pais@.len(),
            final(self).num_tehai == old(self).num_tehai,
    {
        let ghost p0 = self.pais@;
        let mut k: usize = 0;
        proof {
            assert(pais@.subrange(0, 0) =~= Seq::<Pai>::empty());
        }
        while k < pais.len()
            invariant
                k <= pais.len() <= 3,
                self.pais@.len() == 48,
                self.pais@ == sub_each(p0, pais@.subrange(0, k as int)),
                self.num_pais_rem == old(self).num_pais_rem,
                self.num_tehai == old(self).num_tehai,
                forall|i: int| 0 <= i < 48 ==> p0[i] - k <= #[trigger] self.pais@[i] <= p0[i],
                forall|i: int| 0 <= i < 48 ==> 0 <= #[trigger] p0[i] <= MAX_HAND,
            decreases pais.len() - k,
        {
            let u = pais[k].as_unify_u8() as usize;
            proof {
                lemma_unify_valid(pais@[k as int]);
                assert(pais@.subrange(0, k + 1).drop_last() =~= pais@.subrange(0, k as int));
            }
            self.pais[u] = self.pais[u] - 1;
            k = k + 1;
        }
        proof {
            assert(pais@.subrange(0, pais@.len() as int) =~= pais@);
        }
        self.num_pais_rem = self.num_pais_rem - pais.len() as i32;
    }

    /// Puts the given tiles back into the counts.
    fn rollback_pais(&mut self, pais: &[Pai])
        requires
            old(self).pais@.len() == 48,
            pais@.len() <= 3,
            -3 <= old(self).num_pais_rem <= MAX_HAND,
            forall|i: int| 0 <= i < 48 ==> -3 <= #[trigger] old(self).pais@[i] <= MAX_HAND,
        ensures
            final(self).pais@ == add_each(old(self).pais@, pais@),
            final(self).num_pais_rem == old(self).num_pais_rem + pais@.len(),
            final(self).num_tehai == old(self).num_tehai,
    {
        let ghost p0 = self.pais@;
        let mut k: usize = 0;
        proof {
            assert(pais@.subrange(0, 0) =~= Seq::<Pai>::empty());
        }
        while k < pais.len()
            invariant
                k <= pais.len() <= 3,
                self.pais@.len() == 48,
                self.pais@ == add_each(p0, pais@.subrange(0, k as int)),
                self.num_pais_rem == old(self).num_pais_rem,
                self.num_tehai == old(self).num_tehai,
                forall|i: int| 0 <= i < 48 ==> p0[i] <= #[trigger] self.pais@[i] <= p0[i] + k,
                forall|i: int| 0 <= i < 48 ==> -3 <= #[trigger] p0[i] <= MAX_HAND,
            decreases pais.len() - k,
        {
            let u = pais[k].as_unify_u8() as usize;
            proof {
                lemma_unify_valid(pais@[k as int]);
                assert(pais@.subrange(0, k + 1).drop_last() =~= pais@.subrange(0, k as int));
            }
            self.pais[u] = self.pais[u] + 1;
            k = k + 1;
        }
        proof {
            assert(pais@.subrange(0, pais@.len() as int) =~= pais@);
        }
        self.num_pais_rem = self.num_pais_rem + pais.len() as i32;
    }

    /// The first index at or after `take_idx` whose count is not zero, or 48.
    fn next_not_zero(&self, take_idx: usize) -> (r: usize)
        requires
            self.pais@.len() == 48,
        ensures
            r == next_nonzero(self.pais@, take_idx as int),
    {
        let mut idx = take_idx;
        while idx < 48
            invariant
                self.pais@.len() == 48,
                take_idx <= idx,
                next_nonzero(self.pais@, take_idx as int) == next_nonzero(self.pais@, idx as int),
            decreases 48 - idx,
        {
            if self.pais[idx] > 0 {
                return idx;
            }
            idx = idx + 1;
        }
        48
    }

    /// Takes the first meld of three at or after `take_idx`, if there is one.
    fn try_take_3(&mut self, take_idx: usize) -> (r: Option<([Pai; 3], usize)>)
        requires
            old(self).wf(),
        ensures
            match take3(old(self).pais@, take_idx as int) {
                None => r is None && final(self).same_as(*old(self)),
                Some((p2, j)) => {
                    &&& r matches Some((m, idx))
                    &&& idx == j
                    &&& final(self).pais@ == p2
                    &&& final(self).num_pais_rem == old(self).num_pais_rem - 3
                    &&& final(self).num_tehai == old(self).num_tehai
                    &&& final(self).wf()
                    &&& add_each(p2, m@) == old(self).pais@
                    &&& m@.len() == 3
                },
            },
    {
        let ghost p = self.pais@;
        let mut idx = take_idx;
        while idx < 48
            invariant
                self.wf(),
                self.pais@ == p,
                self.num_pais_rem == old(self).num_pais_rem,
                self.num_tehai == old(self).num_tehai,
                p == old(self).pais@,
                take3(p, take_idx as int) == take3(p, idx as int),
            decreases 48 - idx,
        {
            let num = self.pais[idx];
            if num < 1 {
                idx = idx + 1;
                continue;
            }
            if (11 <= idx && idx <= 19) || (21 <= idx && idx <= 29) || (31 <= idx && idx <= 39) {
                if num >= 3 {
                    if let Some(pai) = Pai::from_u8(idx as u8) {
                        let meld = [pai, pai, pai];
                        proof {
                            lemma_from_index_unify(idx as int);
                            lemma_count_le_sum(p, idx as int, 48);
                        }
                        self.take(&meld);
                        proof {
                            lemma_sub3(p, pai, pai, pai);
                            assert(self.pais@ =~= p.update(idx as int, (p[idx as int] - 3) as i32));
                            lemma_add3(self.pais@, pai, pai, pai);
                            assert(add_each(self.pais@, meld@) =~= p);
                            lemma_sum_update(p, idx as int, (p[idx as int] - 3) as i32, 48);
                        }
                        return Some((meld, idx));
                    }
                }
                if (11 <= idx && idx < 18) || (21 <= idx && idx < 28) || (31 <= idx && idx < 38) {
                    if self.pais[idx + 1] < 1 || self.pais[idx + 2] < 1 {
                        idx = idx + 1;
                        continue;
                    }
                    let a = Pai::from_u8(idx as u8).unwrap();
                    let b = Pai::from_u8((idx + 1) as u8).unwrap();
                    let c = Pai::from_u8((idx + 2) as u8).unwrap();
                    let meld = [a, b, c];
                    proof {
                        lemma_from_index_unify(idx as int);
                        lemma_from_index_unify(idx + 1);
                        lemma_from_index_unify(idx + 2);
                        lemma_count_le_sum(p, idx as int, 48);
                        lemma_count_le_sum(p, idx + 1, 48);
                        lemma_count_le_sum(p, idx + 2, 48);
                    }
                    self.take(&meld);
                    proof {
                        let i = idx as int;
                        lemma_sub3(p, a, b, c);
                        let p2 = dec(dec(dec(p, i), i + 1), i + 2);
                        assert(self.pais@ == p2);
                        lemma_add3(p2, a, b, c);
                        assert(add_each(p2, meld@) =~= p);
                        let q1 = dec(p, i);
                        let q2 = dec(q1, i + 1);
                        lemma_sum_update(p, i, (p[i] - 1) as i32, 48);
                        lemma_sum_update(q1, i + 1, (q1[i + 1] - 1) as i32, 48);
                        lemma_sum_update(q2, i + 2, (q2[i + 2] - 1) as i32, 48);
                        lemma_sum_nonneg(self.pais@, 48);
                    }
                    return Some((meld, idx));
                }
            }
            if (41 <= idx && idx <= 47) && num >= 3 {
                if let Some(pai) = Pai::from_u8(idx as u8) {
                    let meld = [pai, pai, pai];
                    proof {
                        lemma_from_index_unify(idx as int);
                        lemma_count_le_sum(p, idx as int, 48);
                    }
                    self.take(&meld);
                    proof {
                        lemma_sub3(p, pai, pai, pai);
                        assert(self.pais@ =~= p.update(idx as int, (p[idx as int] - 3) as i32));
                        lemma_add3(self.pais@, pai, pai, pai);
                        assert(add_each(self.pais@, meld@) =~= p);
                        lemma_sum_update(p, idx as int, (p[idx as int] - 3) as i32, 48);
                    }
                    return Some((meld, idx));
                }
            }
            idx = idx + 1;
        }
        None
    }

    /// Takes the first partial meld of two at or after `take_idx`, if there
    /// is one.
    fn try_take_2(&mut self, take_idx: usize) -> (r: Option<([Pai; 2], usize)>)
        requires
            old(self).wf(),
        ensures
            match take2(old(self).pais@, take_idx as int) {
                None => r is None && final(self).same_as(*old(self)),
                Some((p2, j)) => {
                    &&& r matches Some((m, idx))
                    &&& idx == j
                    &&& final(self).pais@ == p2
                    &&& final(self).num_pais_rem == old(self).num_pais_rem - 2
                    &&& final(self).num_tehai == old(self).num_tehai
                    &&& final(self).wf()
                    &&& add_each(p2, m@) == old(self).pais@
                    &&& m@.len() == 2
                },
            },
    {
        let ghost p = self.pais@;
        let mut idx = take_idx;
        while idx < 48
            invariant
                self.wf(),
                self.pais@ == p,
                self.num_pais_rem == old(self).num_pais_rem,
                self.num_tehai == old(self).num_tehai,
                p == old(self).pais@,
                take2(p, take_idx as int) == take2(p, idx as int),
            decreases 48 - idx,
        {
            if self.pais[idx] < 1 {
                idx = idx + 1;
                continue;
            }
            if (11 <= idx && idx <= 19) || (21 <= idx && idx <= 29) || (31 <= idx && idx <= 39) {
                if self.pais[idx] > 1 {
                    if let Some(pai) = Pai::from_u8(idx as u8) {
                        let res = [pai, pai];
                        proof {
                            lemma_from_index_unify(idx as int);
                            lemma_count_le_sum(p, idx as int, 48);
                        }
                        self.take(&res);
                        proof {
                            lemma_sub_pair(p, pai);
                            lemma_add_pair(self.pais@, pai);
                            assert(add_each(self.pais@, res@) =~= p);
                            lemma_sum_update(p, idx as int, (p[idx as int] - 2) as i32, 48);
                        }
                        return Some((res, idx));
                    }
                }
                if idx % 10 > 8 {
                    idx = idx + 1;
                    continue;
                }
                if self.pais[idx + 1] > 0 {
                    let a = Pai::from_u8(idx as u8).unwrap();
                    let b = Pai::from_u8((idx + 1) as u8).unwrap();
                    let res = [a, b];
                    proof {
                        lemma_from_index_unify(idx as int);
                        lemma_from_index_unify(idx + 1);
                        lemma_count_le_sum(p, idx as int, 48);
                        lemma_count_le_sum(p, idx + 1, 48);
                    }
                    self.take(&res);
                    proof {
                        let i = idx as int;
                        lemma_sub2(p, a, b);
                        let p2 = dec(dec(p, i), i + 1);
                        lemma_add2(p2, a, b);
                        assert(add_each(p2, res@) =~= p);
                        let q1 = dec(p, i);
                        lemma_sum_update(p, i, (p[i] - 1) as i32, 48);
                        lemma_sum_update(q1, i + 1, (q1[i + 1] - 1) as i32, 48);
                        lemma_sum_nonneg(self.pais@, 48);
                    }
                    return Some((res, idx));
                } else if idx % 10 < 8 && self.pais[idx + 2] > 0 {
                    let a = Pai::from_u8(idx as u8).unwrap();
                    let b = Pai::from_u8((idx + 2) as u8).unwrap();
                    let res = [a, b];
                    proof {
                        lemma_from_index_unify(idx as int);
                        lemma_from_index_unify(idx + 2);
                        lemma_count_le_sum(p, idx as int, 48);
                        lemma_count_le_sum(p, idx + 2, 48);
                    }
                    self.take(&res);
                    proof {
                        let i = idx as int;
                        lemma_sub2(p, a, b);
                        let p2 = dec(dec(p, i), i + 2);
                        lemma_add2(p2, a, b);
                        assert(add_each(p2, res@) =~= p);
                        let q1 = dec(p, i);
                        lemma_sum_update(p, i, (p[i] - 1) as i32, 48);
                        lemma_sum_update(q1, i + 2, (q1[i + 2] - 1) as i32, 48);
                        lemma_sum_nonneg(self.pais@, 48);
                    }
                    return Some((res, idx));
                }
            }
            if 41 <= idx && idx <= 47 && self.pais[idx] > 1 {
                if let Some(pai) = Pai::from_u8(idx as u8) {
                    let res = [pai, pai];
                    proof {
                        lemma_from_index_unify(idx as int);
                        lemma_count_le_sum(p, idx as int, 48);
                    }
                    self.take(&res);
                    proof {
                        lemma_sub_pair(p, pai);
                        lemma_add_pair(self.pais@, pai);
                        assert(add_each(self.pais@, res@) =~= p);
                        lemma_sum_update(p, idx as int, (p[idx as int] - 2) as i32, 48);
                    }
                    return Some((res, idx));
                }
            }
            idx = idx + 1;
        }
        None
    }
}

impl ShantenHelper {
    /// The best shanten of a finished decomposition, kept if it beats the
    /// one found so far.
    fn settle(shanten: &mut i32, c_max: &mut i32, exist_eye: i32, num_meld: i32, num_dazi: i32)
        requires
            shanten_bounds(*old(shanten) as int, *old(c_max) as int),
            -MAX_HAND / 3 - 1 <= num_meld <= 4,
            0 <= num_dazi,
            0 <= exist_eye <= 1,
            3 * num_meld + 2 * num_dazi + 2 * exist_eye <= 16,
        ensures
            (*final(shanten) as int, *final(c_max) as int) == settle(
                *old(shanten) as int,
                *old(c_max) as int,
                exist_eye as int,
                num_meld as int,
                num_dazi as int,
            ),
            shanten_bounds(*final(shanten) as int, *final(c_max) as int),
    {
        let t = num_meld + num_dazi + exist_eye;
        let penalty = if t - 5 > 0 {
            t - 5
        } else {
            0
        };
        let q = if t <= 4 {
            1
        } else {
            exist_eye
        };
        let cur_s = 9 - 2 * num_meld - (num_dazi + exist_eye) - q + penalty;
        let c = 3 * num_meld + 2 * num_dazi + 2 * exist_eye;
        if cur_s < *shanten {
            *shanten = cur_s;
        }
        if c > *c_max {
            *c_max = c;
        }
    }

    /// The search over partial melds from `begin_idx` on.
    fn search_by_take_2(
        &mut self,
        begin_idx: usize,
        shanten: &mut i32,
        c_max: &mut i32,
        exist_eye: i32,
        num_meld: i32,
        num_dazi: i32,
    )
        requires
            old(self).wf(),
            shanten_bounds(*old(shanten) as int, *old(c_max) as int),
            0 <= exist_eye <= 1,
            0 <= num_meld - num_fuuros(old(self).num_tehai as int) <= 4,
            0 <= num_dazi,
            3 * (num_meld - num_fuuros(old(self).num_tehai as int)) + 2 * num_dazi + 2 * exist_eye
                + old(self).num_pais_rem == old(self).num_tehai,
        ensures
            final(self).same_as(*old(self)),
            final(self).wf(),
            (*final(shanten) as int, *final(c_max) as int) == search2(
                old(self).pais@,
                old(self).num_pais_rem as int,
                begin_idx as int,
                *old(shanten) as int,
                *old(c_max) as int,
                exist_eye as int,
                num_meld as int,
                num_dazi as int,
                old(self).num_tehai as int,
            ),
            shanten_bounds(*final(shanten) as int, *final(c_max) as int),
        decreases old(self).num_pais_rem,
    {
        proof {
            lemma_fuuro_bounds(self.num_tehai as int);
            lemma_meld_bound(self.num_tehai as int, num_meld - num_fuuros(self.num_tehai as int));
        }
        if *shanten == -1 || num_meld + num_dazi > self.num_tehai {
            return;
        }
        let c = 3 * num_meld + 2 * num_dazi + 2 * exist_eye;
        if self.num_pais_rem < *c_max - c {
            return;
        }
        if self.num_pais_rem == 0 {
            Self::settle(shanten, c_max, exist_eye, num_meld, num_dazi);
            return;
        }
        let ghost start = *self;
        let ghost p = self.pais@;
        match self.try_take_2(begin_idx) {
            Some((dazi, next_search_idx)) => {
                self.search_by_take_2(
                    next_search_idx,
                    shanten,
                    c_max,
                    exist_eye,
                    num_meld,
                    num_dazi + 1,
                );
                self.rollback_pais(&dazi);
                proof {
                    assert(self.pais@ =~= p);
                }
            },
            None => {},
        }
        // every tile left counts as a lone tile
        if !(*shanten == -1 || num_meld + num_dazi > self.num_tehai) && !(0 < *c_max - c) {
            Self::settle(shanten, c_max, exist_eye, num_meld, num_dazi);
        }
        proof {
            assert(self.same_as(start));
        }
    }

    /// The search over melds from `begin_idx` on, at depth `level`.
    fn search_by_take_3(
        &mut self,
        level: i32,
        begin_idx: usize,
        shanten: &mut i32,
        c_max: &mut i32,
        exist_eye: i32,
        num_meld: i32,
    )
        requires
            old(self).wf(),
            shanten_bounds(*old(shanten) as int, *old(c_max) as int),
            0 <= exist_eye <= 1,
            0 <= level <= 4,
            begin_idx <= 48,
            num_meld - num_fuuros(old(self).num_tehai as int) == level,
            3 * level + 2 * exist_eye + old(self).num_pais_rem == old(self).num_tehai,
        ensures
            final(self).same_as(*old(self)),
            final(self).wf(),
            (*final(shanten) as int, *final(c_max) as int) == search3(
                old(self).pais@,
                old(self).num_pais_rem as int,
                level as int,
                begin_idx as int,
                *old(shanten) as int,
                *old(c_max) as int,
                exist_eye as int,
                num_meld as int,
                old(self).num_tehai as int,
            ),
            shanten_bounds(*final(shanten) as int, *final(c_max) as int),
        decreases 4 - level, 48 - begin_idx,
    {
        proof {
            lemma_fuuro_bounds(self.num_tehai as int);
        }
        if begin_idx >= 48 || level > 3 {
            self.search_by_take_2(11, shanten, c_max, exist_eye, num_meld, 0);
            return;
        }
        let ghost start = *self;
        let ghost p = self.pais@;
        proof {
            lemma_take3_facts(p, begin_idx as int);
        }
        match self.try_take_3(begin_idx) {
            Some((meld, next_search_idx)) => {
                self.search_by_take_3(
                    level + 1,
                    next_search_idx,
                    shanten,
                    c_max,
                    exist_eye,
                    num_meld + 1,
                );
                self.rollback_pais(&meld);
                proof {
                    assert(self.pais@ =~= p);
                }
            },
            None => {},
        }
        proof {
            assert(self.same_as(start));
            lemma_next_nonzero(p, begin_idx + 1);
        }
        let next_search_idx = self.next_not_zero(begin_idx + 1);
        self.search_by_take_3(level, next_search_idx, shanten, c_max, exist_eye, num_meld);
    }
}

proof fn lemma_meld_bound(nt: int, l: int)
    requires
        0 <= nt <= MAX_HAND,
        0 <= l <= 4,
        3 * l <= nt,
    ensures
        num_fuuros(nt) + l <= 4,
{
}

proof fn lemma_fuuro_bounds(nt: int)
    requires
        0 <= nt <= MAX_HAND,
    ensures
        -MAX_HAND / 3 - 1 <= num_fuuros(nt) <= 4,
        12 <= nt + 3 * num_fuuros(nt) <= 16,
{
}

proof fn lemma_sub3(p: Seq<i32>, a: Pai, b: Pai, c: Pai)
    ensures
        sub_each(p, seq![a, b, c]) == dec(
            dec(dec(p, a.unify_id() as int), b.unify_id() as int),
            c.unify_id() as int,
        ),
{
    assert(seq![a, b, c].drop_last() =~= seq![a, b]);
    assert(seq![a, b].drop_last() =~= seq![a]);
    assert(seq![a].drop_last() =~= Seq::<Pai>::empty());
    assert(sub_each(p, seq![a]) == dec(sub_each(p, Seq::<Pai>::empty()), a.unify_id() as int));
    assert(sub_each(p, seq![a, b]) == dec(sub_each(p, seq![a]), b.unify_id() as int));
    assert(sub_each(p, seq![a, b, c]) == dec(sub_each(p, seq![a, b]), c.unify_id() as int));
}

proof fn lemma_add3(p: Seq<i32>, a: Pai, b: Pai, c: Pai)
    ensures
        add_each(p, seq![a, b, c]) == inc(
            inc(inc(p, a.unify_id() as int), b.unify_id() as int),
            c.unify_id() as int,
        ),
{
    assert(seq![a, b, c].drop_last() =~= seq![a, b]);
    assert(seq![a, b].drop_last() =~= seq![a]);
    assert(seq![a].drop_last() =~= Seq::<Pai>::empty());
    assert(add_each(p, seq![a]) == inc(add_each(p, Seq::<Pai>::empty()), a.unify_id() as int));
    assert(add_each(p, seq![a, b]) == inc(add_each(p, seq![a]), b.unify_id() as int));
    assert(add_each(p, seq![a, b, c]) == inc(add_each(p, seq![a, b]), c.unify_id() as int));
}

proof fn lemma_sub2(p: Seq<i32>, a: Pai, b: Pai)
    ensures
        sub_each(p, seq![a, b]) == dec(dec(p, a.unify_id() as int), b.unify_id() as int),
{
    assert(seq![a, b].drop_last() =~= seq![a]);
    assert(seq![a].drop_last() =~= Seq::<Pai>::empty());
    assert(sub_each(p, seq![a]) == dec(sub_each(p, Seq::<Pai>::empty()), a.unify_id() as int));
    assert(sub_each(p, seq![a, b]) == dec(sub_each(p, seq![a]), b.unify_id() as int));
}

proof fn lemma_add2(p: Seq<i32>, a: Pai, b: Pai)
    ensures
        add_each(p, seq![a, b]) == inc(inc(p, a.unify_id() as int), b.unify_id() as int),
{
    assert(seq![a, b].drop_last() =~= seq![a]);
    assert(seq![a].drop_last() =~= Seq::<Pai>::empty());
    assert(add_each(p, seq![a]) == inc(add_each(p, Seq::<Pai>::empty()), a.unify_id() as int));
    assert(add_each(p, seq![a, b]) == inc(add_each(p, seq![a]), b.unify_id() as int));
}

/// The least of three numbers.
pub open spec fn min3(a: int, b: int, c: int) -> int {
    let m = if a < b {
        a
    } else {
        b
    };
    if m < c {
        m
    } else {
        c
    }
}

/// The bounds that the best shanten and the most tiles used stay in.
pub open spec fn shanten_bounds(s: int, cm: int) -> bool {
    -1 <= s <= 8 && 0 <= cm <= 16
}

proof fn lemma_zero_sum(p: Seq<i32>, n: int)
    requires
        0 <= n <= p.len(),
        forall|j: int| 0 <= j < p.len() ==> #[trigger] p[j] == 0,
    ensures
        sum_prefix(p, n) == 0,
    decreases n,
{
    if n > 0 {
        lemma_zero_sum(p, n - 1);
    }
}

proof fn lemma_eye_list_facts(p: Seq<i32>, i: int, j: int)
    requires
        p.len() == 48,
        0 <= i,
        0 <= j < eye_list(p, i).len(),
    ensures
        ({
            let e = eye_list(p, i)[j];
            let u = e.unify_id() as int;
            &&& i <= u < 48
            &&& p[u] >= 2
            &&& valid_index(u)
            &&& Pai::from_id(u) == Some(e)
        }),
    decreases 48 - i,
{
    if i < 48 {
        if p[i] >= 2 && valid_index(i) {
            lemma_from_index_unify(i);
            if j > 0 {
                lemma_eye_list_facts(p, i + 1, j - 1);
            }
        } else {
            lemma_eye_list_facts(p, i + 1, j);
        }
    }
}

proof fn lemma_sub_pair(p: Seq<i32>, e: Pai)
    requires
        p.len() == 48,
        e.unify_id() < 48,
        -MAX_HAND <= p[e.unify_id() as int] <= MAX_HAND,
    ensures
        sub_each(p, seq![e, e]) == p.update(e.unify_id() as int, (p[e.unify_id() as int] - 2) as i32),
{
    let u = e.unify_id() as int;
    assert(seq![e, e].drop_last() =~= seq![e]);
    assert(seq![e].drop_last() =~= Seq::<Pai>::empty());
    assert(sub_each(p, seq![e]) == dec(sub_each(p, Seq::<Pai>::empty()), e.unify_id() as int));
    assert(sub_each(p, seq![e, e]) == dec(sub_each(p, seq![e]), e.unify_id() as int));
    assert(sub_each(p, seq![e, e]) =~= p.update(u, (p[u] - 2) as i32));
}

proof fn lemma_add_pair(p: Seq<i32>, e: Pai)
    requires
        p.len() == 48,
        e.unify_id() < 48,
        -MAX_HAND <= p[e.unify_id() as int] <= MAX_HAND,
    ensures
        add_each(p, seq![e, e]) == p.update(e.unify_id() as int, (p[e.unify_id() as int] + 2) as i32),
{
    let u = e.unify_id() as int;
    assert(seq![e, e].drop_last() =~= seq![e]);
    assert(seq![e].drop_last() =~= Seq::<Pai>::empty());
    assert(add_each(p, seq![e]) == inc(add_each(p, Seq::<Pai>::empty()), e.unify_id() as int));
    assert(add_each(p, seq![e, e]) == inc(add_each(p, seq![e]), e.unify_id() as int));
    assert(add_each(p, seq![e, e]) =~= p.update(u, (p[u] + 2) as i32));
}

/// Whether `i` is a terminal or honor tile.
fn is_yaochuu_exec(i: usize) -> (r: bool)
    ensures
        r == is_yaochuu(i as int),
{
    i == 11 || i == 19 || i == 21 || i == 29 || i == 31 || i == 39 || (41 <= i && i <= 47)
}


/// The tenhou numbers of the thirteen orphans: the ones and nines of the
/// three suits, and the seven honors.
pub open spec fn orphan_number(i: int) -> bool {
    ||| i == 11
    ||| i == 19
    ||| i == 21
    ||| i == 29
    ||| i == 31
    ||| i == 39
    ||| 41 <= i <= 47
}

/// The orphan kinds present among the counts from `i` on.
pub open spec fn orphans_present(p: Seq<i32>, i: int) -> Set<int> {
    Set::new(|j: int| i <= j < 48 && orphan_number(j) && p[j] != 0)
}

/// Counting orphan kinds from `i` on counts the orphans present there.
proof fn lemma_orphan_kinds(p: Seq<i32>, i: int)
    requires
        0 <= i <= 48,
    ensures
        orphans_present(p, i).finite(),
        yaochuu_kinds(p, i) == orphans_present(p, i).len(),
    decreases 48 - i,
{
    if i == 48 {
        assert(orphans_present(p, i) =~= Set::<int>::empty());
    } else {
        lemma_orphan_kinds(p, i + 1);
        let rest = orphans_present(p, i + 1);
        if p[i] != 0 && is_yaochuu(i) {
            assert(orphans_present(p, i) =~= rest.insert(i));
            assert(!rest.contains(i));
        } else {
            assert(orphans_present(p, i) =~= rest);
        }
    }
}

/// Looking for an orphan pair from `i` on finds one where there is one.
proof fn lemma_orphan_pair(p: Seq<i32>, i: int)
    requires
        0 <= i <= 48,
    ensures
        yaochuu_pair(p, i) <==> exists|j: int| i <= j < 48 && orphan_number(j) && #[trigger] p[j] > 1,
    decreases 48 - i,
{
    if i < 48 {
        lemma_orphan_pair(p, i + 1);
        if p[i] > 1 && orphan_number(i) {
            assert(i <= i < 48 && orphan_number(i) && p[i] > 1);
        }
        if exists|j: int| i <= j < 48 && orphan_number(j) && #[trigger] p[j] > 1 {
            let j = choose|j: int| i <= j < 48 && orphan_number(j) && #[trigger] p[j] > 1;
            if j > i {
                assert(i + 1 <= j < 48 && orphan_number(j) && p[j] > 1);
            }
        }
    }
}

/// The thirteen orphans count: a hand of 13 tiles or more counts 13, less
/// one for each kind of terminal or honor it holds, less one more if it
/// holds any terminal or honor twice or more (the ones and nines of the
/// suits as much as the honors); a hand with calls counts 8.
pub proof fn law_kokushi_count(p: Seq<i32>, nt: int)
    requires
        p.len() == 48,
    ensures
        nt < 13 ==> kokushi_shanten(p, nt) == 8,
        nt >= 13 ==> kokushi_shanten(p, nt) == 13 - orphans_present(p, 0).len() - if exists|j: int|
            0 <= j < 48 && orphan_number(j) && #[trigger] p[j] > 1 {
            1int
        } else {
            0int
        },
{
    lemma_orphan_kinds(p, 0);
    lemma_orphan_pair(p, 0);
}


/// The kinds of tiles present among the counts from `i` on, by their
/// tenhou numbers.
pub open spec fn kinds_present(p: Seq<i32>, i: int) -> Set<int> {
    Set::new(|j: int| i <= j < 48 && Pai::from_id(j) is Some && p[j] != 0)
}

/// The kinds of tiles present twice or more among the counts from `i` on.
pub open spec fn kinds_paired(p: Seq<i32>, i: int) -> Set<int> {
    Set::new(|j: int| i <= j < 48 && Pai::from_id(j) is Some && p[j] >= 2)
}

/// Counting kinds and pairs from `i` on counts the kinds present and paired.
proof fn lemma_kinds_and_pairs(p: Seq<i32>, i: int)
    requires
        0 <= i <= 48,
    ensures
        kinds_present(p, i).finite(),
        kinds_paired(p, i).finite(),
        kinds_from(p, i) == kinds_present(p, i).len(),
        pairs_from(p, i) == kinds_paired(p, i).len(),
    decreases 48 - i,
{
    if i == 48 {
        assert(kinds_present(p, i) =~= Set::<int>::empty());
        assert(kinds_paired(p, i) =~= Set::<int>::empty());
    } else {
        lemma_kinds_and_pairs(p, i + 1);
        let k1 = kinds_present(p, i + 1);
        let q1 = kinds_paired(p, i + 1);
        if p[i] != 0 && valid_index(i) {
            assert(kinds_present(p, i) =~= k1.insert(i));
            assert(!k1.contains(i));
        } else {
            assert(kinds_present(p, i) =~= k1);
        }
        if p[i] >= 2 && valid_index(i) {
            assert(kinds_paired(p, i) =~= q1.insert(i));
            assert(!q1.contains(i));
        } else {
            assert(kinds_paired(p, i) =~= q1);
        }
    }
}

/// The seven pairs count: a hand of 13 tiles or more counts 6, less one for
/// each kind of tile it holds twice or more, plus one for each kind short
/// of seven kinds; a hand with calls counts 6.
pub proof fn law_chiitoi_count(p: Seq<i32>, nt: int)
    requires
        p.len() == 48,
    ensures
        nt < 13 ==> chiitoi_shanten(p, nt) == 6,
        nt >= 13 ==> chiitoi_shanten(p, nt) == 6 - kinds_paired(p, 0).len() + if kinds_present(
            p,
            0,
        ).len() < 7 {
            7 - kinds_present(p, 0).len()
        } else {
            0
        },
{
    lemma_kinds_and_pairs(p, 0);
}

} // verus!
