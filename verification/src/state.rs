use vstd::prelude::*;

use crate::mjai::Event;
use crate::pai::Pai;
use crate::shanten::{
    chiitoi_shanten,
    kokushi_shanten,
    min3,
    normal_shanten,
    unify_count,
    ShantenHelper,
    MAX_HAND,
};
use crate::tehai::{remove_each, sorted_pais, Tehai};
use vstd::multiset::Multiset;

verus! {

broadcast use vstd::array::group_array_axioms;

/// A meld that a player has called or declared.
#[derive(Debug, Clone, Copy)]
pub enum Fuuro {
    Chi { target: u8, pai: Pai, consumed: [Pai; 2] },
    Pon { target: u8, pai: Pai, consumed: [Pai; 2] },
    Daiminkan { target: u8, pai: Pai, consumed: [Pai; 3] },
    Kakan { pai: Pai, previous_pon_target: u8, previous_pon_pai: Pai, consumed: [Pai; 2] },
    Ankan { consumed: [Pai; 4] },
}

/// Why an event could not be applied to a player's state.
#[derive(Debug, Clone, Copy, PartialEq, Eq, Structural)]
pub enum StateError {
    /// An added kan names a pon that the player has not called.
    PreviousPonNotFound,
}

/// Whether the meld is the pon that an added kan with the tiles `consumed`
/// extends: the pon's called tile and its two own tiles, in this order.
pub open spec fn is_pon_of(f: Fuuro, consumed: [Pai; 3]) -> bool {
    match f {
        Fuuro::Pon { pai, consumed: c, .. } => [pai, c[0], c[1]] == consumed,
        _ => false,
    }
}

/// The added kan made from the pon `f` with the added tile `pai`.
pub open spec fn kakan_of(f: Fuuro, pai: Pai) -> Fuuro {
    match f {
        Fuuro::Pon { target, pai: pon_pai, consumed } => Fuuro::Kakan {
            pai,
            previous_pon_target: target,
            previous_pon_pai: pon_pai,
            consumed,
        },
        _ => f,
    }
}

/// The tile counts of a hand, by tenhou.net/6 number with red fives counted
/// as plain fives.
pub open spec fn hand_counts(tiles: Seq<Pai>) -> Seq<i32> {
    Seq::new(48, |i: int| unify_count(tiles, i) as i32)
}

/// The shanten of a closed hand: the least of the thirteen orphans, seven
/// pairs and four-melds-and-a-pair counts.
pub open spec fn shanten_of(tiles: Seq<Pai>) -> int {
    let c = hand_counts(tiles);
    let n = tiles.len() as int;
    min3(kokushi_shanten(c, n), chiitoi_shanten(c, n), normal_shanten(c, n, n))
}

/// What a player's hand and melds are, as seen through the events of a game.
#[derive(Debug)]
pub struct State {
    actor: u8,
    pub tehai: Tehai,
    pub fuuros: Vec<Fuuro>,
}

/// What applying an event does to a player's state: `s1` and the result `r`
/// are what the application to `s0` gives.
pub open spec fn updated(s0: State, event: Event, s1: State, r: Result<(), StateError>) -> bool {
    let a = s0.spec_player();
    let t0 = s0.hand();
    let t1 = s1.hand();
    let f0 = s0.melds();
    let f1 = s1.melds();
    match event {
        Event::StartKyoku { tehais, .. } => {
            &&& r is Ok
            &&& sorted_pais(t1)
            &&& t1.to_multiset() == tehais[a as int]@.to_multiset()
            &&& f1 == Seq::<Fuuro>::empty()
        },
        Event::Tsumo { actor, pai } => r is Ok && f1 == f0 && if actor == a {
            t1 == t0.push(pai)
        } else {
            t1 == t0
        },
        Event::Dahai { actor, pai, tsumogiri } => r is Ok && f1 == f0 && if actor
            != a {
            t1 == t0
        } else if tsumogiri {
            t1 == if t0.len() > 0 {
                t0.drop_last()
            } else {
                t0
            }
        } else {
            sorted_pais(t1) && t1.to_multiset() == t0.to_multiset().remove(pai)
        },
        Event::Chi { actor, target, pai, consumed } => r is Ok && if actor == a {
            &&& sorted_pais(t1)
            &&& t1.to_multiset() == remove_each(t0.to_multiset(), consumed@)
            &&& f1 == f0.push(Fuuro::Chi { target, pai, consumed })
        } else {
            t1 == t0 && f1 == f0
        },
        Event::Pon { actor, target, pai, consumed } => r is Ok && if actor == a {
            &&& sorted_pais(t1)
            &&& t1.to_multiset() == remove_each(t0.to_multiset(), consumed@)
            &&& f1 == f0.push(Fuuro::Pon { target, pai, consumed })
        } else {
            t1 == t0 && f1 == f0
        },
        Event::Daiminkan { actor, target, pai, consumed } => r is Ok && if actor
            == a {
            &&& sorted_pais(t1)
            &&& t1.to_multiset() == remove_each(t0.to_multiset(), consumed@)
            &&& f1 == f0.push(Fuuro::Daiminkan { target, pai, consumed })
        } else {
            t1 == t0 && f1 == f0
        },
        Event::Kakan { actor, pai, consumed } => if actor == a {
            &&& sorted_pais(t1)
            &&& t1.to_multiset() == t0.to_multiset().remove(pai)
            &&& match r {
                Ok(()) => exists|i: int|
                    {
                        &&& 0 <= i < f0.len()
                        &&& is_pon_of(#[trigger] f0[i], consumed)
                        &&& forall|j: int| 0 <= j < i ==> !is_pon_of(f0[j], consumed)
                        &&& f1 == f0.update(i, kakan_of(f0[i], pai))
                    },
                Err(e) => e == StateError::PreviousPonNotFound && f1 == f0 && forall|
                    j: int,
                |
                    0 <= j < f0.len() ==> !is_pon_of(#[trigger] f0[j], consumed),
            }
        } else {
            r is Ok && t1 == t0 && f1 == f0
        },
        Event::Ankan { actor, consumed } => r is Ok && if actor == a {
            &&& sorted_pais(t1)
            &&& t1.to_multiset() == remove_each(t0.to_multiset(), consumed@)
            &&& f1 == f0.push(Fuuro::Ankan { consumed })
        } else {
            t1 == t0 && f1 == f0
        },
        _ => r is Ok && t1 == t0 && f1 == f0,
    }
}

impl State {
    /// The player whose state this is.
    pub closed spec fn spec_player(self) -> u8 {
        self.actor
    }

    /// The tiles of the player's closed hand.
    pub closed spec fn hand(self) -> Seq<Pai> {
        self.tehai.tiles()
    }

    /// The player's melds, in the order they were made.
    pub closed spec fn melds(self) -> Seq<Fuuro> {
        self.fuuros@
    }

    /// The state of player `actor` before any event: no tiles, no melds.
    pub fn new(actor: u8) -> (r: State)
        ensures
            r.spec_player() == actor,
            r.hand() == Seq::<Pai>::empty(),
            r.melds() == Seq::<Fuuro>::empty(),
    {
        State { actor, tehai: Tehai::new(), fuuros: Vec::new() }
    }

    /// The player whose state this is.
    pub fn player_id(&self) -> (r: u8)
        ensures
            r == self.spec_player(),
    {
        self.actor
    }

    /// Whether the player's hand holds the tile.
    pub fn has_tile(&self, tile: Pai) -> (r: bool)
        ensures
            r == self.hand().contains(tile),
    {
        self.tehai.contains(tile)
    }

    /// A copy of the state.
    pub fn duplicate(&self) -> (r: State)
        ensures
            r.spec_player() == self.spec_player(),
            r.hand() == self.hand(),
            r.melds() == self.melds(),
    {
        let mut fuuros: Vec<Fuuro> = Vec::new();
        let mut i: usize = 0;
        while i < self.fuuros.len()
            invariant
                i <= self.fuuros.len(),
                fuuros@ == self.melds().subrange(0, i as int),
            decreases self.fuuros.len() - i,
        {
            fuuros.push(self.fuuros[i]);
            i = i + 1;
            proof {
                assert(fuuros@ =~= self.melds().subrange(0, i as int));
            }
        }
        proof {
            assert(self.melds().subrange(0, self.melds().len() as int) =~= self.melds());
        }
        State { actor: self.actor, tehai: self.tehai.duplicate(), fuuros }
    }

    /// Applies an event to the state of the player.
    ///
    /// A new kyoku deals the hand and clears the melds; a draw, a discard, a
    /// call or a kan by the player changes the hand and the melds; any other
    /// event, and any event of another player, leaves the state as it is. An
    /// added kan turns the pon it extends into a kan, and fails where there
    /// is no such pon; the hand has then already given up the added tile.
    pub fn update(&mut self, event: &Event) -> (r: Result<(), StateError>)
        requires
            event is StartKyoku ==> old(self).spec_player() < 4,
        ensures
            final(self).spec_player() == old(self).spec_player(),
            updated(*old(self), *event, *final(self), r),
    {
        match event {
            Event::StartKyoku { tehais, .. } => {
                let hand: [Pai; 13] = tehais[self.actor as usize];
                self.tehai.haipai(hand.as_slice());
                self.fuuros.clear();
            },
            Event::Tsumo { actor, pai } => {
                if *actor == self.actor {
                    self.tehai.tsumo(*pai);
                }
            },
            Event::Dahai { actor, pai, tsumogiri } => {
                if *actor == self.actor {
                    if *tsumogiri {
                        self.tehai.tsumogiri();
                    } else {
                        self.tehai.tedashi(*pai);
                    }
                }
            },
            Event::Chi { actor, target, pai, consumed } => {
                if *actor == self.actor {
                    self.tehai.remove_multiple(consumed.as_slice());
                    self.fuuros.push(Fuuro::Chi { target: *target, pai: *pai, consumed: *consumed });
                }
            },
            Event::Pon { actor, target, pai, consumed } => {
                if *actor == self.actor {
                    self.tehai.remove_multiple(consumed.as_slice());
                    self.fuuros.push(Fuuro::Pon { target: *target, pai: *pai, consumed: *consumed });
                }
            },
            Event::Daiminkan { actor, target, pai, consumed } => {
                if *actor == self.actor {
                    self.tehai.remove_multiple(consumed.as_slice());
                    self.fuuros.push(
                        Fuuro::Daiminkan { target: *target, pai: *pai, consumed: *consumed },
                    );
                }
            },
            Event::Kakan { actor, pai, consumed } => {
                if *actor == self.actor {
                    self.tehai.tedashi(*pai);
                    let ghost after = self.tehai.tiles();
                    let mut idx: usize = 0;
                    while idx < self.fuuros.len()
                        invariant
                            idx <= self.fuuros.len(),
                            self.melds() == old(self).melds(),
                            self.actor == old(self).actor,
                            self.tehai.tiles() == after,
                            *event == (Event::Kakan { actor: *actor, pai: *pai, consumed: *consumed }),
                            *actor == old(self).actor,
                            sorted_pais(after),
                            after.to_multiset() == old(self).hand().to_multiset().remove(*pai),
                            forall|j: int| 0 <= j < idx ==> !is_pon_of(#[trigger] self.melds()[j], *consumed),
                        decreases self.fuuros.len() - idx,
                    {
                        let f = self.fuuros[idx];
                        match f {
                            Fuuro::Pon { target: pon_target, pai: pon_pai, consumed: pon_consumed } => {
                                if pon_pai == consumed[0] && pon_consumed[0] == consumed[1]
                                    && pon_consumed[1] == consumed[2] {
                                    proof {
                                        assert([pon_pai, pon_consumed[0], pon_consumed[1]] =~= *consumed);
                                    }
                                    self.fuuros.set(
                                        idx,
                                        Fuuro::Kakan {
                                            pai: *pai,
                                            previous_pon_target: pon_target,
                                            previous_pon_pai: pon_pai,
                                            consumed: pon_consumed,
                                        },
                                    );
                                    proof {
                                        let i = idx as int;
                                        assert(is_pon_of(old(self).melds()[i], *consumed));
                                        assert(self.melds() =~= old(self).melds().update(
                                            i,
                                            kakan_of(old(self).melds()[i], *pai),
                                        ));
                                    }
                                    return Ok(());
                                }
                                proof {
                                    if is_pon_of(f, *consumed) {
                                        assert([pon_pai, pon_consumed[0], pon_consumed[1]][0] == consumed[0]);
                                        assert([pon_pai, pon_consumed[0], pon_consumed[1]][1] == consumed[1]);
                                        assert([pon_pai, pon_consumed[0], pon_consumed[1]][2] == consumed[2]);
                                    }
                                }
                            },
                            _ => {},
                        }
                        idx = idx + 1;
                    }
                    return Err(StateError::PreviousPonNotFound);
                }
            },
            Event::Ankan { actor, consumed } => {
                if *actor == self.actor {
                    self.tehai.remove_multiple(consumed.as_slice());
                    self.fuuros.push(Fuuro::Ankan { consumed: *consumed });
                }
            },
            _ => {},
        }
        Ok(())
    }

    /// The shanten of the player's closed hand.
    pub fn calc_shanten(&self) -> (r: i32)
        requires
            self.hand().len() <= MAX_HAND,
        ensures
            r == shanten_of(self.hand()),
    {
        let mut s = ShantenHelper::new(&self.tehai);
        proof {
            assert forall|i: int| 0 <= i < 48 implies #[trigger] s.counts()[i] == hand_counts(
                self.hand(),
            )[i] by {
                assert(s.counts()[i] == unify_count(self.hand(), i));
            }
            assert(s.counts() =~= hand_counts(self.hand()));
        }
        s.get_shanten()
    }
}

/// A player's state follows only his own actions: an event of another
/// player (a draw, discard, call, kan, riichi or win) leaves his hand and
/// his melds as they were, and is always taken.
pub proof fn law_others_leave_state(s0: State, event: Event, s1: State, r: Result<(), StateError>)
    requires
        updated(s0, event, s1, r),
        event.spec_actor() matches Some(a) && a != s0.spec_player(),
    ensures
        r is Ok,
        s1.hand() == s0.hand(),
        s1.melds() == s0.melds(),
{
}

} // verus!
