use vstd::prelude::*;

use crate::pai::Pai;
use crate::tehai::vec_copy;

verus! {

broadcast use vstd::array::group_array_axioms;

/// An event of a game in the mjai format.
#[derive(Debug, Clone)]
pub enum Event {
    NoAction,
    StartGame { names: [String; 4], kyoku_first: u8, aka_flag: bool },
    StartKyoku {
        bakaze: Pai,
        dora_marker: Pai,
        kyoku: u8,
        honba: u8,
        kyotaku: u8,
        oya: u8,
        scores: [i32; 4],
        tehais: [[Pai; 13]; 4],
    },
    Tsumo { actor: u8, pai: Pai },
    Dahai { actor: u8, pai: Pai, tsumogiri: bool },
    Chi { actor: u8, target: u8, pai: Pai, consumed: [Pai; 2] },
    Pon { actor: u8, target: u8, pai: Pai, consumed: [Pai; 2] },
    Daiminkan { actor: u8, target: u8, pai: Pai, consumed: [Pai; 3] },
    Kakan { actor: u8, pai: Pai, consumed: [Pai; 3] },
    Ankan { actor: u8, consumed: [Pai; 4] },
    Dora { dora_marker: Pai },
    Reach { actor: u8 },
    ReachAccepted { actor: u8 },
    Hora { actor: u8, target: u8, deltas: Option<[i32; 4]>, ura_markers: Option<Vec<Pai>> },
    Ryukyoku { deltas: Option<[i32; 4]> },
    EndKyoku,
    EndGame,
}

/// The texts of four player names.
pub open spec fn names_view(n: [String; 4]) -> Seq<Seq<char>> {
    seq![n[0]@, n[1]@, n[2]@, n[3]@]
}

/// The tiles of an optional tile list.
pub open spec fn tiles_view(o: Option<Vec<Pai>>) -> Option<Seq<Pai>> {
    match o {
        Some(v) => Some(v@),
        None => None,
    }
}

/// Two events say the same: the same kind with the same fields, names and
/// tile lists compared by their contents.
pub open spec fn same_event(a: Event, b: Event) -> bool {
    match a {
        Event::StartGame { names: n1, kyoku_first: k1, aka_flag: f1 } => match b {
            Event::StartGame { names: n2, kyoku_first: k2, aka_flag: f2 } => names_view(n1)
                == names_view(n2) && k1 == k2 && f1 == f2,
            _ => false,
        },
        Event::Hora { actor: a1, target: t1, deltas: d1, ura_markers: u1 } => match b {
            Event::Hora { actor: a2, target: t2, deltas: d2, ura_markers: u2 } => a1 == a2 && t1
                == t2 && d1 == d2 && tiles_view(u1) == tiles_view(u2),
            _ => false,
        },
        _ => a == b,
    }
}

impl Event {
    /// The player who acts in the event, for the events that have one.
    pub open spec fn spec_actor(self) -> Option<u8> {
        match self {
            Event::Tsumo { actor, .. } => Some(actor),
            Event::Dahai { actor, .. } => Some(actor),
            Event::Chi { actor, .. } => Some(actor),
            Event::Pon { actor, .. } => Some(actor),
            Event::Daiminkan { actor, .. } => Some(actor),
            Event::Kakan { actor, .. } => Some(actor),
            Event::Ankan { actor, .. } => Some(actor),
            Event::Reach { actor } => Some(actor),
            Event::ReachAccepted { actor } => Some(actor),
            Event::Hora { actor, .. } => Some(actor),
            _ => None,
        }
    }

    /// For a call on a discard (chi, pon, open kan): the player called from
    /// and the tile called.
    pub open spec fn spec_naki_info(self) -> Option<(u8, Pai)> {
        match self {
            Event::Chi { target, pai, .. } => Some((target, pai)),
            Event::Pon { target, pai, .. } => Some((target, pai)),
            Event::Daiminkan { target, pai, .. } => Some((target, pai)),
            _ => None,
        }
    }

    /// The priority of a call: a pon goes before a chi on the same discard.
    pub open spec fn spec_naki_ord(self) -> int {
        match self {
            Event::Chi { .. } => 0,
            Event::Pon { .. } => 1,
            _ => -1,
        }
    }

    /// The player who acts in the event, for the events that have one.
    pub fn actor(&self) -> (r: Option<u8>)
        ensures
            r == self.spec_actor(),
    {
        match self {
            Event::Tsumo { actor, .. } => Some(*actor),
            Event::Dahai { actor, .. } => Some(*actor),
            Event::Chi { actor, .. } => Some(*actor),
            Event::Pon { actor, .. } => Some(*actor),
            Event::Daiminkan { actor, .. } => Some(*actor),
            Event::Kakan { actor, .. } => Some(*actor),
            Event::Ankan { actor, .. } => Some(*actor),
            Event::Reach { actor } => Some(*actor),
            Event::ReachAccepted { actor } => Some(*actor),
            Event::Hora { actor, .. } => Some(*actor),
            _ => None,
        }
    }

    /// For a call on a discard: the player called from and the tile called.
    pub fn naki_info(&self) -> (r: Option<(u8, Pai)>)
        ensures
            r == self.spec_naki_info(),
    {
        match self {
            Event::Chi { target, pai, .. } => Some((*target, *pai)),
            Event::Pon { target, pai, .. } => Some((*target, *pai)),
            Event::Daiminkan { target, pai, .. } => Some((*target, *pai)),
            _ => None,
        }
    }

    /// The priority of a call: a pon goes before a chi on the same discard.
    pub fn naki_to_ord(&self) -> (r: isize)
        ensures
            r == self.spec_naki_ord(),
    {
        match self {
            Event::Chi { .. } => 0,
            Event::Pon { .. } => 1,
            _ => -1,
        }
    }

    /// A copy of the event.
    pub fn duplicate(&self) -> (r: Event)
        ensures
            same_event(r, *self),
    {
        match self {
            Event::NoAction => Event::NoAction,
            Event::StartGame { names, kyoku_first, aka_flag } => {
                let n = [names[0].clone(), names[1].clone(), names[2].clone(), names[3].clone()];
                Event::StartGame { names: n, kyoku_first: *kyoku_first, aka_flag: *aka_flag }
            },
            Event::StartKyoku {
                bakaze,
                dora_marker,
                kyoku,
                honba,
                kyotaku,
                oya,
                scores,
                tehais,
            } => Event::StartKyoku {
                bakaze: *bakaze,
                dora_marker: *dora_marker,
                kyoku: *kyoku,
                honba: *honba,
                kyotaku: *kyotaku,
                oya: *oya,
                scores: *scores,
                tehais: *tehais,
            },
            Event::Tsumo { actor, pai } => Event::Tsumo { actor: *actor, pai: *pai },
            Event::Dahai { actor, pai, tsumogiri } => Event::Dahai {
                actor: *actor,
                pai: *pai,
                tsumogiri: *tsumogiri,
            },
            Event::Chi { actor, target, pai, consumed } => Event::Chi {
                actor: *actor,
                target: *target,
                pai: *pai,
                consumed: *consumed,
            },
            Event::Pon { actor, target, pai, consumed } => Event::Pon {
                actor: *actor,
                target: *target,
                pai: *pai,
                consumed: *consumed,
            },
            Event::Daiminkan { actor, target, pai, consumed } => Event::Daiminkan {
                actor: *actor,
                target: *target,
                pai: *pai,
                consumed: *consumed,
            },
            Event::Kakan { actor, pai, consumed } => Event::Kakan {
                actor: *actor,
                pai: *pai,
                consumed: *consumed,
            },
            Event::Ankan { actor, consumed } => Event::Ankan { actor: *actor, consumed: *consumed },
            Event::Dora { dora_marker } => Event::Dora { dora_marker: *dora_marker },
            Event::Reach { actor } => Event::Reach { actor: *actor },
            Event::ReachAccepted { actor } => Event::ReachAccepted { actor: *actor },
            Event::Hora { actor, target, deltas, ura_markers } => {
                let u = match ura_markers {
                    Some(v) => Some(vec_copy(v)),
                    None => None,
                };
                Event::Hora { actor: *actor, target: *target, deltas: *deltas, ura_markers: u }
            },
            Event::Ryukyoku { deltas } => Event::Ryukyoku { deltas: *deltas },
            Event::EndKyoku => Event::EndKyoku,
            Event::EndGame => Event::EndGame,
        }
    }

    /// Whether the two events say the same.
    pub fn same_as(&self, other: &Event) -> (r: bool)
        ensures
            r == same_event(*self, *other),
    {
        match (self, other) {
            (Event::NoAction, Event::NoAction) => true,
            (
                Event::StartGame { names: n1, kyoku_first: k1, aka_flag: f1 },
                Event::StartGame { names: n2, kyoku_first: k2, aka_flag: f2 },
            ) => {
                let r = n1[0] == n2[0] && n1[1] == n2[1] && n1[2] == n2[2] && n1[3] == n2[3] && *k1
                    == *k2 && *f1 == *f2;
                proof {
                    if r {
                        assert(names_view(*n1) =~= names_view(*n2));
                    } else if *k1 == *k2 && *f1 == *f2 {
                        assert(!(names_view(*n1) =~= names_view(*n2)) ==> names_view(*n1)
                            != names_view(*n2));
                        assert(names_view(*n1)[0] == n1[0]@);
                        assert(names_view(*n1)[1] == n1[1]@);
                        assert(names_view(*n1)[2] == n1[2]@);
                        assert(names_view(*n1)[3] == n1[3]@);
                        assert(names_view(*n2)[0] == n2[0]@);
                        assert(names_view(*n2)[1] == n2[1]@);
                        assert(names_view(*n2)[2] == n2[2]@);
                        assert(names_view(*n2)[3] == n2[3]@);
                    }
                }
                r
            },
            (
                Event::StartKyoku {
                    bakaze: b1,
                    dora_marker: d1,
                    kyoku: k1,
                    honba: h1,
                    kyotaku: t1,
                    oya: o1,
                    scores: s1,
                    tehais: te1,
                },
                Event::StartKyoku {
                    bakaze: b2,
                    dora_marker: d2,
                    kyoku: k2,
                    honba: h2,
                    kyotaku: t2,
                    oya: o2,
                    scores: s2,
                    tehais: te2,
                },
            ) => *b1 == *b2 && *d1 == *d2 && *k1 == *k2 && *h1 == *h2 && *t1 == *t2 && *o1 == *o2
                && scores_eq(s1, s2) && tehais_eq(te1, te2),
            (Event::Tsumo { actor: a1, pai: p1 }, Event::Tsumo { actor: a2, pai: p2 }) => *a1
                == *a2 && *p1 == *p2,
            (
                Event::Dahai { actor: a1, pai: p1, tsumogiri: g1 },
                Event::Dahai { actor: a2, pai: p2, tsumogiri: g2 },
            ) => *a1 == *a2 && *p1 == *p2 && *g1 == *g2,
            (
                Event::Chi { actor: a1, target: t1, pai: p1, consumed: c1 },
                Event::Chi { actor: a2, target: t2, pai: p2, consumed: c2 },
            ) => *a1 == *a2 && *t1 == *t2 && *p1 == *p2 && pais2_eq(c1, c2),
            (
                Event::Pon { actor: a1, target: t1, pai: p1, consumed: c1 },
                Event::Pon { actor: a2, target: t2, pai: p2, consumed: c2 },
            ) => *a1 == *a2 && *t1 == *t2 && *p1 == *p2 && pais2_eq(c1, c2),
            (
                Event::Daiminkan { actor: a1, target: t1, pai: p1, consumed: c1 },
                Event::Daiminkan { actor: a2, target: t2, pai: p2, consumed: c2 },
            ) => *a1 == *a2 && *t1 == *t2 && *p1 == *p2 && pais3_eq(c1, c2),
            (
                Event::Kakan { actor: a1, pai: p1, consumed: c1 },
                Event::Kakan { actor: a2, pai: p2, consumed: c2 },
            ) => *a1 == *a2 && *p1 == *p2 && pais3_eq(c1, c2),
            (Event::Ankan { actor: a1, consumed: c1 }, Event::Ankan { actor: a2, consumed: c2 }) => {
                *a1 == *a2 && pais4_eq(c1, c2)
            },
            (Event::Dora { dora_marker: d1 }, Event::Dora { dora_marker: d2 }) => *d1 == *d2,
            (Event::Reach { actor: a1 }, Event::Reach { actor: a2 }) => *a1 == *a2,
            (Event::ReachAccepted { actor: a1 }, Event::ReachAccepted { actor: a2 }) => *a1 == *a2,
            (
                Event::Hora { actor: a1, target: t1, deltas: d1, ura_markers: u1 },
                Event::Hora { actor: a2, target: t2, deltas: d2, ura_markers: u2 },
            ) => *a1 == *a2 && *t1 == *t2 && deltas_eq(d1, d2) && tiles_eq(u1, u2),
            (Event::Ryukyoku { deltas: d1 }, Event::Ryukyoku { deltas: d2 }) => deltas_eq(d1, d2),
            (Event::EndKyoku, Event::EndKyoku) => true,
            (Event::EndGame, Event::EndGame) => true,
            _ => false,
        }
    }
}

fn scores_eq(a: &[i32; 4], b: &[i32; 4]) -> (r: bool)
    ensures
        r == (*a == *b),
{
    let r = a[0] == b[0] && a[1] == b[1] && a[2] == b[2] && a[3] == b[3];
    proof {
        if r {
            assert(*a =~= *b);
        }
    }
    r
}

fn deltas_eq(a: &Option<[i32; 4]>, b: &Option<[i32; 4]>) -> (r: bool)
    ensures
        r == (*a == *b),
{
    match (a, b) {
        (Some(x), Some(y)) => scores_eq(x, y),
        (None, None) => true,
        _ => false,
    }
}

/// Whether two pairs of tiles are the same, in order.
pub fn pais2_eq(a: &[Pai; 2], b: &[Pai; 2]) -> (r: bool)
    ensures
        r == (*a == *b),
{
    let r = a[0] == b[0] && a[1] == b[1];
    proof {
        if r {
            assert(*a =~= *b);
        }
    }
    r
}

/// Whether two triples of tiles are the same, in order.
pub fn pais3_eq(a: &[Pai; 3], b: &[Pai; 3]) -> (r: bool)
    ensures
        r == (*a == *b),
{
    let r = a[0] == b[0] && a[1] == b[1] && a[2] == b[2];
    proof {
        if r {
            assert(*a =~= *b);
        }
    }
    r
}

/// Whether two quadruples of tiles are the same, in order.
pub fn pais4_eq(a: &[Pai; 4], b: &[Pai; 4]) -> (r: bool)
    ensures
        r == (*a == *b),
{
    let r = a[0] == b[0] && a[1] == b[1] && a[2] == b[2] && a[3] == b[3];
    proof {
        if r {
            assert(*a =~= *b);
        }
    }
    r
}

fn hand_eq(a: &[Pai; 13], b: &[Pai; 13]) -> (r: bool)
    ensures
        r == (*a == *b),
{
    let mut i: usize = 0;
    while i < 13
        invariant
            i <= 13,
            forall|j: int| 0 <= j < i ==> a[j] == b[j],
        decreases 13 - i,
    {
        if a[i] != b[i] {
            return false;
        }
        i = i + 1;
    }
    proof {
        assert(*a =~= *b);
    }
    true
}

fn tehais_eq(a: &[[Pai; 13]; 4], b: &[[Pai; 13]; 4]) -> (r: bool)
    ensures
        r == (*a == *b),
{
    let r = hand_eq(&a[0], &b[0]) && hand_eq(&a[1], &b[1]) && hand_eq(&a[2], &b[2]) && hand_eq(
        &a[3],
        &b[3],
    );
    proof {
        if r {
            assert(*a =~= *b);
        }
    }
    r
}

fn tiles_eq(a: &Option<Vec<Pai>>, b: &Option<Vec<Pai>>) -> (r: bool)
    ensures
        r == (tiles_view(*a) == tiles_view(*b)),
{
    match a {
        Some(x) => match b {
            Some(y) => {
                let r = seq_eq(x, y);
                r
            },
            None => false,
        },
        None => b.is_none(),
    }
}

/// Whether two tile lists are the same.
pub fn seq_eq(x: &Vec<Pai>, y: &Vec<Pai>) -> (r: bool)
    ensures
        r == (x@ == y@),
{
    if x.len() != y.len() {
        return false;
    }
    let mut i: usize = 0;
    while i < x.len()
        invariant
            x.len() == y.len(),
            i <= x.len(),
            forall|j: int| 0 <= j < i ==> x@[j] == y@[j],
        decreases x.len() - i,
    {
        if x[i] != y[i] {
            proof {
                assert(x@[i as int] != y@[i as int]);
            }
            return false;
        }
        i = i + 1;
    }
    proof {
        assert(x@ =~= y@);
    }
    true
}

} // verus!
