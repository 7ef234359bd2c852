use vstd::prelude::*;

use crate::pai::Pai;
use vstd::multiset::Multiset;

verus! {

broadcast use vstd::seq_lib::group_to_multiset_ensures;

/// Whether the tiles are in ascending order of their sort key.
pub open spec fn sorted_pais(s: Seq<Pai>) -> bool {
    forall|i: int, j: int| 0 <= i < j < s.len() ==> s[i].ord_key() <= s[j].ord_key()
}

/// The tiles of `m` left after taking away one copy of each tile of `ts`, in
/// turn; a tile that is no longer there is skipped.
pub open spec fn remove_each(m: Multiset<Pai>, ts: Seq<Pai>) -> Multiset<Pai>
    decreases ts.len(),
{
    if ts.len() == 0 {
        m
    } else {
        remove_each(m.remove(ts[0]), ts.drop_first())
    }
}

/// The closed hand of a player.
///
/// The tiles are kept in ascending order of their sort key (a red five sits
/// right after the plain five of its suit), except that a freshly drawn tile
/// stays at the end until the next discard or call.
#[derive(Debug)]
pub struct Tehai {
    inner: Vec<Pai>,
    is_sorted: bool,
}


proof fn lemma_insert_multiset(s: Seq<Pai>, pos: int, x: Pai)
    requires
        0 <= pos <= s.len(),
    ensures
        s.insert(pos, x).to_multiset() =~= s.to_multiset().insert(x),
{
    let t = s.insert(pos, x);
    assert(t.remove(pos) =~= s);
    vstd::seq_lib::to_multiset_remove(t, pos);
    assert(t.contains(x)) by {
        assert(t[pos] == x);
    }
    assert(t.to_multiset().count(x) > 0);
    assert forall|y: Pai| #[trigger] t.to_multiset().count(y) == s.to_multiset().insert(x).count(
        y,
    ) by {
        if y == x {
            assert(s.to_multiset().count(x) == t.to_multiset().count(x) - 1);
        } else {
            assert(s.to_multiset().count(y) == t.to_multiset().count(y));
        }
    }
}

proof fn lemma_remove_keeps_sorted(s: Seq<Pai>, i: int)
    requires
        0 <= i < s.len(),
        sorted_pais(s),
    ensures
        sorted_pais(s.remove(i)),
{
    let t = s.remove(i);
    assert forall|a: int, b: int| 0 <= a < b < t.len() implies t[a].ord_key() <= t[b].ord_key() by {
        let a1 = if a < i {
            a
        } else {
            a + 1
        };
        let b1 = if b < i {
            b
        } else {
            b + 1
        };
        assert(t[a] == s[a1]);
        assert(t[b] == s[b1]);
    }
}

/// The position at which `x` goes into the sorted tiles `v`: after every tile
/// whose key is not above its own.
fn insert_position(v: &Vec<Pai>, x: Pai) -> (pos: usize)
    requires
        sorted_pais(v@),
    ensures
        pos <= v.len(),
        forall|i: int| 0 <= i < pos ==> v@[i].ord_key() <= x.ord_key(),
        forall|i: int| pos <= i < v.len() ==> v@[i].ord_key() > x.ord_key(),
{
    let key = x.as_ord();
    let mut pos: usize = 0;
    while pos < v.len() && v[pos].as_ord() <= key
        invariant
            pos <= v.len(),
            sorted_pais(v@),
            forall|i: int| 0 <= i < pos ==> v@[i].ord_key() <= key,
        decreases v.len() - pos,
    {
        pos = pos + 1;
    }
    proof {
        if pos < v.len() {
            assert forall|i: int| pos <= i < v.len() implies v@[i].ord_key() > key by {
                assert(v@[pos as int].ord_key() <= v@[i].ord_key());
            }
        }
    }
    pos
}

/// The tiles of `tiles` in ascending order of their sort key.
fn sort_pais(tiles: &[Pai]) -> (r: Vec<Pai>)
    ensures
        sorted_pais(r@),
        r@.to_multiset() == tiles@.to_multiset(),
{
    let mut out: Vec<Pai> = Vec::new();
    let mut k: usize = 0;
    while k < tiles.len()
        invariant
            k <= tiles.len(),
            sorted_pais(out@),
            out@.to_multiset() == tiles@.subrange(0, k as int).to_multiset(),
        decreases tiles.len() - k,
    {
        let x = tiles[k];
        let pos = insert_position(&out, x);
        let ghost before = out@;
        out.insert(pos, x);
        proof {
            lemma_insert_multiset(before, pos as int, x);
            assert(tiles@.subrange(0, k + 1) =~= tiles@.subrange(0, k as int).push(x));
            assert forall|a: int, b: int| 0 <= a < b < out@.len() implies out@[a].ord_key()
                <= out@[b].ord_key() by {
                if b < pos {
                    assert(out@[a] == before[a] && out@[b] == before[b]);
                } else if b == pos {
                    assert(out@[a] == before[a]);
                } else if a < pos {
                    assert(out@[a] == before[a] && out@[b] == before[b - 1]);
                } else if a == pos {
                    assert(out@[b] == before[b - 1]);
                } else {
                    assert(out@[a] == before[a - 1] && out@[b] == before[b - 1]);
                }
            }
        }
        k = k + 1;
    }
    proof {
        assert(tiles@.subrange(0, tiles@.len() as int) =~= tiles@);
    }
    out
}

/// Looks for `x` in the sorted tiles `v`.
fn find_sorted(v: &Vec<Pai>, x: Pai) -> (r: Option<usize>)
    requires
        sorted_pais(v@),
    ensures
        match r {
            Some(i) => i < v.len() && v@[i as int] == x,
            None => !v@.contains(x),
        },
{
    let key = x.as_ord();
    let mut lo: usize = 0;
    let mut hi: usize = v.len();
    while lo < hi
        invariant
            lo <= hi <= v.len(),
            sorted_pais(v@),
            key == x.ord_key(),
            forall|i: int| 0 <= i < lo ==> v@[i].ord_key() < key,
            forall|i: int| hi <= i < v.len() ==> v@[i].ord_key() > key,
        decreases hi - lo,
    {
        let mid = lo + (hi - lo) / 2;
        let k = v[mid].as_ord();
        if k < key {
            proof {
                assert forall|i: int| 0 <= i < mid + 1 implies v@[i].ord_key() < key by {
                    if i < mid {
                        assert(v@[i].ord_key() <= v@[mid as int].ord_key());
                    }
                }
            }
            lo = mid + 1;
        } else if k > key {
            proof {
                assert forall|i: int| mid <= i < v.len() implies v@[i].ord_key() > key by {
                    if i > mid {
                        assert(v@[mid as int].ord_key() <= v@[i].ord_key());
                    }
                }
            }
            hi = mid;
        } else {
            proof {
                crate::pai::law_ord_key_injective(v@[mid as int], x);
            }
            return Some(mid);
        }
    }
    proof {
        if v@.contains(x) {
            let i = choose|i: int| 0 <= i < v@.len() && v@[i] == x;
            assert(v@[i].ord_key() == key);
        }
    }
    None
}

/// Whether the tiles are in ascending order of their sort key.
fn check_sorted(v: &Vec<Pai>) -> (r: bool)
    ensures
        r == sorted_pais(v@),
{
    let mut i: usize = 1;
    if v.len() < 2 {
        return true;
    }
    while i < v.len()
        invariant
            1 <= i <= v.len(),
            forall|a: int, b: int| 0 <= a < b < i ==> v@[a].ord_key() <= v@[b].ord_key(),
        decreases v.len() - i,
    {
        if v[i - 1].as_ord() > v[i].as_ord() {
            return false;
        }
        proof {
            assert forall|a: int, b: int| 0 <= a < b < i + 1 implies v@[a].ord_key()
                <= v@[b].ord_key() by {
                if b == i && a < i - 1 {
                    assert(v@[a].ord_key() <= v@[i - 1].ord_key());
                }
            }
        }
        i = i + 1;
    }
    true
}

impl Tehai {
    /// The tiles of the hand, in their order.
    pub closed spec fn tiles(self) -> Seq<Pai> {
        self.inner@
    }

    #[verifier::type_invariant]
    spec fn wf(self) -> bool {
        self.is_sorted ==> sorted_pais(self.inner@)
    }

    /// Whether the tiles are known to be in order.
    pub closed spec fn in_order(self) -> bool {
        self.is_sorted
    }

    /// An empty hand.
    pub fn new() -> (r: Tehai)
        ensures
            r.tiles() == Seq::<Pai>::empty(),
    {
        Tehai { inner: Vec::new(), is_sorted: true }
    }

    /// A hand holding the given tiles, put in order.
    pub fn from_pais(tiles: Vec<Pai>) -> (r: Tehai)
        ensures
            sorted_pais(r.tiles()),
            r.tiles().to_multiset() == tiles@.to_multiset(),
    {
        let inner = sort_pais(tiles.as_slice());
        Tehai { inner, is_sorted: true }
    }

    /// Resets the hand to the dealt tiles, put in order.
    pub fn haipai(&mut self, tiles: &[Pai])
        ensures
            sorted_pais(final(self).tiles()),
            final(self).tiles().to_multiset() == tiles@.to_multiset(),
    {
        self.inner = sort_pais(tiles);
        self.is_sorted = true;
    }

    /// Draws a tile: it goes to the end of the hand.
    pub fn tsumo(&mut self, tile: Pai)
        ensures
            final(self).tiles() == old(self).tiles().push(tile),
    {
        let mut v: Vec<Pai> = Vec::new();
        std::mem::swap(&mut v, &mut self.inner);
        v.push(tile);
        self.is_sorted = false;
        self.inner = v;
    }

    /// Discards the last drawn tile, which is the last tile of the hand.
    pub fn tsumogiri(&mut self)
        ensures
            final(self).tiles() == if old(self).tiles().len() > 0 {
                old(self).tiles().drop_last()
            } else {
                old(self).tiles()
            },
    {
        let mut v: Vec<Pai> = Vec::new();
        std::mem::swap(&mut v, &mut self.inner);
        v.pop();
        let s = check_sorted(&v);
        self.is_sorted = false;
        self.inner = v;
        self.is_sorted = s;
    }

    /// Puts the hand in order.
    fn sort(&mut self)
        ensures
            sorted_pais(final(self).tiles()),
            final(self).tiles().to_multiset() == old(self).tiles().to_multiset(),
            final(self).in_order(),
    {
        let sorted = sort_pais(self.inner.as_slice());
        self.inner = sorted;
        self.is_sorted = true;
    }

    /// Discards a tile from the hand: one copy of it leaves the hand, where
    /// there is one, and the hand is put in order.
    pub fn tedashi(&mut self, tile: Pai)
        ensures
            sorted_pais(final(self).tiles()),
            final(self).tiles().to_multiset() == old(self).tiles().to_multiset().remove(tile),
    {
        proof {
            use_type_invariant(&*self);
        }
        if !self.is_sorted {
            self.sort();
        }
        let ghost before = self.inner@;
        match find_sorted(&self.inner, tile) {
            Some(idx) => {
                let mut v: Vec<Pai> = Vec::new();
                std::mem::swap(&mut v, &mut self.inner);
                v.remove(idx);
                self.inner = v;
                proof {
                    lemma_remove_keeps_sorted(before, idx as int);
                    assert(self.inner@ =~= before.remove(idx as int));
                }
                self.is_sorted = true;
            },
            None => {
                proof {
                    assert(before.to_multiset().count(tile) == 0);
                    assert(before.to_multiset().remove(tile) =~= before.to_multiset());
                }
            },
        }
    }

    /// Takes away the tiles used for a call: one copy of each given tile, in
    /// turn, where there is one; the hand is put in order.
    pub fn remove_multiple(&mut self, tiles: &[Pai])
        ensures
            sorted_pais(final(self).tiles()),
            final(self).tiles().to_multiset() == remove_each(old(self).tiles().to_multiset(), tiles@),
    {
        proof {
            use_type_invariant(&*self);
        }
        if !self.is_sorted {
            self.sort();
        }
        let ghost start = self.inner@.to_multiset();
        proof {
            assert(tiles@.subrange(0, tiles@.len() as int) =~= tiles@);
        }
        let mut k: usize = 0;
        while k < tiles.len()
            invariant
                k <= tiles.len(),
                self.is_sorted,
                sorted_pais(self.inner@),
                remove_each(start, tiles@) == remove_each(
                    self.inner@.to_multiset(),
                    tiles@.subrange(k as int, tiles@.len() as int),
                ),
            decreases tiles.len() - k,
        {
            let tile = tiles[k];
            let ghost before = self.inner@;
            proof {
                assert(tiles@.subrange(k as int, tiles@.len() as int).drop_first() =~= tiles@.subrange(
                    k + 1,
                    tiles@.len() as int,
                ));
            }
            match find_sorted(&self.inner, tile) {
                Some(idx) => {
                    let mut v: Vec<Pai> = Vec::new();
                    std::mem::swap(&mut v, &mut self.inner);
                    v.remove(idx);
                    self.inner = v;
                    proof {
                        lemma_remove_keeps_sorted(before, idx as int);
                        assert(self.inner@ =~= before.remove(idx as int));
                    }
                    self.is_sorted = true;
                },
                None => {
                    proof {
                        assert(before.to_multiset().count(tile) == 0);
                        assert(before.to_multiset().remove(tile) =~= before.to_multiset());
                    }
                },
            }
            k = k + 1;
        }
        proof {
            assert(tiles@.subrange(tiles@.len() as int, tiles@.len() as int) =~= Seq::<
                Pai,
            >::empty());
        }
    }

    /// The tiles of the hand.
    pub fn view(&self) -> (r: &[Pai])
        ensures
            r@ == self.tiles(),
    {
        self.inner.as_slice()
    }

    /// Whether the hand holds the tile.
    pub fn contains(&self, tile: Pai) -> (r: bool)
        ensures
            r == self.tiles().contains(tile),
    {
        let mut i: usize = 0;
        while i < self.inner.len()
            invariant
                i <= self.inner.len(),
                forall|j: int| 0 <= j < i ==> self.inner@[j] != tile,
            decreases self.inner.len() - i,
        {
            if self.inner[i] == tile {
                return true;
            }
            i = i + 1;
        }
        false
    }

    /// A copy of the hand.
    pub fn duplicate(&self) -> (r: Tehai)
        ensures
            r.tiles() == self.tiles(),
    {
        proof {
            use_type_invariant(self);
        }
        Tehai { inner: vec_copy(&self.inner), is_sorted: self.is_sorted }
    }
}

/// A copy of a list of tiles.
pub fn vec_copy(v: &Vec<Pai>) -> (r: Vec<Pai>)
    ensures
        r@ == v@,
{
    let mut out: Vec<Pai> = Vec::new();
    let mut i: usize = 0;
    while i < v.len()
        invariant
            i <= v.len(),
            out@ == v@.subrange(0, i as int),
        decreases v.len() - i,
    {
        out.push(v[i]);
        i = i + 1;
        proof {
            assert(out@ =~= v@.subrange(0, i as int));
        }
    }
    proof {
        assert(v@.subrange(0, v@.len() as int) =~= v@);
    }
    out
}

/// Drawing a tile and then discarding that tile from the hand leaves the
/// hand with the tiles it had, in whatever order.
pub proof fn law_draw_then_discard(tiles: Seq<Pai>, t: Pai)
    ensures
        tiles.push(t).to_multiset().remove(t) == tiles.to_multiset(),
{
    broadcast use vstd::seq_lib::group_to_multiset_ensures;

    assert(tiles.push(t).to_multiset() == tiles.to_multiset().insert(t));
}

} // verus!
