use vstd::prelude::*;

use crate::mjai::{same_event, Event};
use crate::pai::Pai;
use crate::review::same_events;
use crate::state::{updated, State, StateError};

verus! {

broadcast use vstd::array::group_array_axioms;

/// The kyoku number (0-based, E1 is 0) of a kyoku start: the round wind's
/// place after East, four kyokus to a wind, then the kyoku within it.
pub open spec fn kyoku_number(bakaze: Pai, kyoku: u8) -> int {
    (bakaze.tile_id() - 27) * 4 + kyoku - 1
}

/// A kyoku start whose number can be taken: the round wind is a wind, the
/// kyoku counts from 1, and the number, counted from 1, fits in a byte.
pub open spec fn countable_start(event: Event) -> bool {
    match event {
        Event::StartKyoku { bakaze, kyoku, .. } => 27 <= bakaze.tile_id() <= 30 && kyoku >= 1
            && kyoku_number(bakaze, kyoku) + 1 <= 255,
        _ => true,
    }
}

/// The scores as player `k` sees them: his own first, then the players
/// after him in turn.
pub open spec fn rotated(s: [i32; 4], k: int) -> [i32; 4] {
    [s[k % 4], s[(k + 1) % 4], s[(k + 2) % 4], s[(k + 3) % 4]]
}

/// The kyoku number of a kyoku start.
fn kyoku_number_exec(bakaze: Pai, kyoku: u8) -> (r: u8)
    requires
        27 <= bakaze.tile_id() <= 30,
        kyoku >= 1,
        kyoku_number(bakaze, kyoku) + 1 <= 255,
    ensures
        r == kyoku_number(bakaze, kyoku),
{
    (bakaze.to_tile_id() - 27) * 4 + kyoku - 1
}

/// The scores as player `k` sees them.
fn rotated_exec(s: [i32; 4], k: u8) -> (r: [i32; 4])
    ensures
        r == rotated(s, k as int),
{
    let k = k as usize;
    let r = [s[k % 4], s[(k + 1) % 4], s[(k + 2) % 4], s[(k + 3) % 4]];
    proof {
        assert(r@ =~= rotated(s, k as int)@);
    }
    r
}

/// What the review with Mortal keeps track of along the events: the
/// player's state, the kyoku under way and how it ended so far, the
/// player's turn count, the last tile drawn or discarded and the last
/// player who acted.
#[derive(Debug)]
pub struct MortalTracker {
    pub state: State,
    pub kyoku: u8,
    pub honba: u8,
    pub relative_scores: [i32; 4],
    pub end_status: Vec<Event>,
    pub junme: u8,
    pub last_tsumo_or_discard: Option<Pai>,
    pub last_actor: u8,
}

/// What an event asks of the review with Mortal.
#[derive(Debug)]
pub enum MortalStep {
    /// Nothing to review here.
    Pass,
    /// A kyoku ended: its number, honba, how it ended and the scores at its
    /// start as the player sees them.
    KyokuEnd { kyoku: u8, honba: u8, end_status: Vec<Event>, relative_scores: [i32; 4] },
    /// The engine's answer to this event is to be reviewed; whether the
    /// player himself just called a chi or pon, or declared riichi.
    Review { at_self_chi_pon: bool, at_self_riichi: bool },
}

/// What the Mortal review's bookkeeping does with an event, the player's
/// state aside: `t1` and the step are what the event makes of `t0`.
pub open spec fn mortal_observed(t0: MortalTracker, event: Event, t1: MortalTracker, step: MortalStep) -> bool {
    let pid = t0.state.spec_player();
    let last_actor = match event.spec_actor() {
        Some(a) => a,
        None => t0.last_actor,
    };
    &&& t1.last_actor == last_actor
    &&& match event {
        Event::StartKyoku { bakaze, kyoku, honba, scores, .. } => {
            &&& step is Pass
            &&& t1.kyoku == kyoku_number(bakaze, kyoku)
            &&& t1.honba == honba
            &&& t1.relative_scores == rotated(scores, pid as int)
            &&& t1.end_status@ == t0.end_status@
            &&& t1.junme == t0.junme
            &&& t1.last_tsumo_or_discard == t0.last_tsumo_or_discard
        },
        Event::EndKyoku => {
            &&& step matches MortalStep::KyokuEnd { kyoku, honba, end_status, relative_scores }
            &&& kyoku == t0.kyoku
            &&& honba == t0.honba
            &&& same_events(end_status@, t0.end_status@)
            &&& relative_scores == t0.relative_scores
            &&& t1.kyoku == 0
            &&& t1.honba == 0
            &&& t1.relative_scores == [0i32, 0, 0, 0]
            &&& t1.end_status@.len() == 0
            &&& t1.junme == 0
            &&& t1.last_tsumo_or_discard == t0.last_tsumo_or_discard
        },
        Event::StartGame { .. } | Event::EndGame => {
            &&& step is Pass
            &&& t1.kyoku == t0.kyoku
            &&& t1.honba == t0.honba
            &&& t1.relative_scores == t0.relative_scores
            &&& t1.end_status@ == t0.end_status@
            &&& t1.junme == t0.junme
            &&& t1.last_tsumo_or_discard == t0.last_tsumo_or_discard
        },
        _ => {
            let mine = event.spec_actor() == Some(pid);
            &&& step == (MortalStep::Review {
                at_self_chi_pon: mine && (event is Chi || event is Pon),
                at_self_riichi: mine && event is Reach,
            })
            &&& t1.kyoku == t0.kyoku
            &&& t1.honba == t0.honba
            &&& t1.relative_scores == t0.relative_scores
            &&& if event is Hora || event is Ryukyoku {
                &&& t1.end_status@.len() == t0.end_status@.len() + 1
                &&& t1.end_status@.take(t0.end_status@.len() as int) == t0.end_status@
                &&& same_event(t1.end_status@.last(), event)
            } else {
                t1.end_status@ == t0.end_status@
            }
            &&& t1.junme == if mine && (event is Tsumo || event is Chi || event is Pon) {
                t0.junme + 1
            } else {
                t0.junme as int
            }
            &&& t1.last_tsumo_or_discard == match event {
                Event::Tsumo { pai, .. } => if mine {
                    Some(pai)
                } else {
                    t0.last_tsumo_or_discard
                },
                Event::Dahai { pai, .. } => Some(pai),
                Event::Kakan { pai, .. } => Some(pai),
                _ => t0.last_tsumo_or_discard,
            }
        },
    }
}

impl MortalTracker {
    /// The bookkeeping of the review of player `player_id` before any event.
    pub fn new(player_id: u8) -> (r: MortalTracker)
        requires
            player_id < 4,
        ensures
            r.state.spec_player() == player_id,
            r.state.hand().len() == 0,
            r.kyoku == 0,
            r.honba == 0,
            r.relative_scores == [0i32, 0, 0, 0],
            r.end_status@.len() == 0,
            r.junme == 0,
            r.last_tsumo_or_discard is None,
            r.last_actor == 0,
    {
        MortalTracker {
            state: State::new(player_id),
            kyoku: 0,
            honba: 0,
            relative_scores: [0, 0, 0, 0],
            end_status: Vec::new(),
            junme: 0,
            last_tsumo_or_discard: None,
            last_actor: 0,
        }
    }

    /// Takes in the next event: updates the player's state, then the
    /// bookkeeping, and says whether the engine's answer to the event is
    /// to be reviewed; a state that cannot take the event fails.
    pub fn observe(&mut self, event: &Event) -> (r: Result<MortalStep, StateError>)
        requires
            old(self).state.spec_player() < 4,
            countable_start(*event),
            old(self).junme < 255,
        ensures
            final(self).state.spec_player() == old(self).state.spec_player(),
            match r {
                Ok(step) => updated(old(self).state, *event, final(self).state, Ok(()))
                    && mortal_observed(*old(self), *event, *final(self), step),
                Err(e) => updated(old(self).state, *event, final(self).state, Err(e)),
            },
    {
        match self.state.update(event) {
            Ok(()) => {},
            Err(e) => {
                return Err(e);
            },
        }
        let pid = self.state.player_id();
        let mine = event.actor() == Some(pid);
        if let Some(a) = event.actor() {
            self.last_actor = a;
        }
        match event {
            Event::StartKyoku { bakaze, kyoku, honba, scores, .. } => {
                self.kyoku = kyoku_number_exec(*bakaze, *kyoku);
                self.honba = *honba;
                self.relative_scores = rotated_exec(*scores, pid);
                Ok(MortalStep::Pass)
            },
            Event::EndKyoku => {
                let mut end_status: Vec<Event> = Vec::new();
                std::mem::swap(&mut end_status, &mut self.end_status);
                let step = MortalStep::KyokuEnd {
                    kyoku: self.kyoku,
                    honba: self.honba,
                    end_status,
                    relative_scores: self.relative_scores,
                };
                self.kyoku = 0;
                self.honba = 0;
                self.relative_scores = [0, 0, 0, 0];
                self.junme = 0;
                proof {
                    lemma_same_events_refl(old(self).end_status@);
                }
                Ok(step)
            },
            Event::StartGame { .. } => Ok(MortalStep::Pass),
            Event::EndGame => Ok(MortalStep::Pass),
            _ => {
                let mut at_self_chi_pon = false;
                let mut at_self_riichi = false;
                match event {
                    Event::Hora { .. } => {
                        self.end_status.push(event.duplicate());
                        proof {
                            assert(self.end_status@.take(old(self).end_status@.len() as int)
                                =~= old(self).end_status@);
                        }
                    },
                    Event::Ryukyoku { .. } => {
                        self.end_status.push(event.duplicate());
                        proof {
                            assert(self.end_status@.take(old(self).end_status@.len() as int)
                                =~= old(self).end_status@);
                        }
                    },
                    Event::Tsumo { pai, .. } => {
                        if mine {
                            self.last_tsumo_or_discard = Some(*pai);
                            self.junme = self.junme + 1;
                        }
                    },
                    Event::Chi { .. } => {
                        if mine {
                            at_self_chi_pon = true;
                            self.junme = self.junme + 1;
                        }
                    },
                    Event::Pon { .. } => {
                        if mine {
                            at_self_chi_pon = true;
                            self.junme = self.junme + 1;
                        }
                    },
                    Event::Reach { .. } => {
                        if mine {
                            at_self_riichi = true;
                        }
                    },
                    Event::Dahai { pai, .. } => {
                        self.last_tsumo_or_discard = Some(*pai);
                    },
                    Event::Kakan { pai, .. } => {
                        self.last_tsumo_or_discard = Some(*pai);
                    },
                    _ => {},
                }
                Ok(MortalStep::Review { at_self_chi_pon, at_self_riichi })
            },
        }
    }
}

/// A list of events says the same as itself.
proof fn lemma_same_events_refl(s: Seq<Event>)
    ensures
        same_events(s, s),
{
    assert forall|i: int| 0 <= i < s.len() implies same_event(#[trigger] s[i], s[i]) by {}
}

/// What the review with akochan keeps track of along the events: the
/// player's state, the kyoku under way and how it ended so far, the
/// player's turn count, the tiles left in the wall and whether the
/// player's riichi stands.
#[derive(Debug)]
pub struct AkochanTracker {
    pub state: State,
    pub kyoku: u8,
    pub honba: u8,
    pub end_status: Vec<Event>,
    pub junme: u8,
    pub tiles_left: u8,
    pub is_riichied: bool,
}

/// What an event asks of the review with akochan.
#[derive(Debug)]
pub enum AkochanStep {
    /// Nothing to review here.
    Pass,
    /// A kyoku ended: its number, honba and how it ended.
    KyokuEnd { kyoku: u8, honba: u8, end_status: Vec<Event> },
    /// The engine's answer to this event is to be reviewed: the player who
    /// acted, the tile, and whether it is another player's added kan.
    Review { last_actor: u8, tile: Pai, at_opponent_kakan: bool },
}

/// Why the review with akochan could not take an event.
#[derive(Debug)]
pub enum AkochanError {
    /// The player's state could not take the event.
    State(StateError),
    /// A decision came with fewer than four events from it to the end.
    TooFewEvents,
}

/// The number of tiles in the wall to draw from at the start of a kyoku.
pub const WALL_TILES: u8 = 70;

/// What the akochan review's bookkeeping does with an event, the player's
/// state aside, where `remaining` events are left from this one on: `t1`
/// and the result are what the event makes of `t0`.
pub open spec fn akochan_observed(
    t0: AkochanTracker,
    event: Event,
    remaining: usize,
    t1: AkochanTracker,
    r: Result<AkochanStep, AkochanError>,
) -> bool {
    let pid = t0.state.spec_player();
    let review = match event {
        Event::Dahai { actor, pai, .. } => if actor != pid {
            Some((actor, pai, false))
        } else {
            None
        },
        Event::Kakan { actor, pai, .. } => if actor != pid {
            Some((actor, pai, true))
        } else {
            None
        },
        Event::Tsumo { actor, pai } => if actor == pid {
            Some((actor, pai, false))
        } else {
            None
        },
        _ => None,
    };
    &&& match event {
        Event::StartKyoku { bakaze, kyoku, honba, .. } => {
            &&& t1.kyoku == kyoku_number(bakaze, kyoku)
            &&& t1.honba == honba
            &&& !t1.is_riichied
            &&& t1.tiles_left == WALL_TILES
            &&& t1.end_status@ == t0.end_status@
            &&& t1.junme == t0.junme
        },
        Event::EndKyoku => {
            &&& t1.kyoku == 0
            &&& t1.honba == 0
            &&& t1.end_status@.len() == 0
            &&& t1.junme == 0
            &&& t1.tiles_left == t0.tiles_left
            &&& t1.is_riichied == t0.is_riichied
        },
        _ => {
            &&& t1.kyoku == t0.kyoku
            &&& t1.honba == t0.honba
            &&& if event is Hora || event is Ryukyoku {
                &&& t1.end_status@.len() == t0.end_status@.len() + 1
                &&& t1.end_status@.take(t0.end_status@.len() as int) == t0.end_status@
                &&& same_event(t1.end_status@.last(), event)
            } else {
                t1.end_status@ == t0.end_status@
            }
            &&& t1.tiles_left == if event is Tsumo {
                t0.tiles_left - 1
            } else {
                t0.tiles_left as int
            }
            &&& t1.junme == if event.spec_actor() == Some(pid) && (event is Tsumo || event is Chi
                || event is Pon) {
                t0.junme + 1
            } else {
                t0.junme as int
            }
            &&& t1.is_riichied == (t0.is_riichied || event == Event::ReachAccepted { actor: pid })
        },
    }
    &&& match review {
        Some((actor, pai, kakan)) => if remaining < 4 {
            r matches Err(AkochanError::TooFewEvents)
        } else {
            r matches Ok(AkochanStep::Review { last_actor, tile, at_opponent_kakan }) && last_actor
                == actor && tile == pai && at_opponent_kakan == kakan
        },
        None => match event {
            Event::EndKyoku => {
                &&& r matches Ok(AkochanStep::KyokuEnd { kyoku, honba, end_status })
                &&& kyoku == t0.kyoku
                &&& honba == t0.honba
                &&& same_events(end_status@, t0.end_status@)
            },
            _ => r matches Ok(AkochanStep::Pass),
        },
    }
}

impl AkochanTracker {
    /// The bookkeeping of the review of player `player_id` before any event.
    pub fn new(player_id: u8) -> (r: AkochanTracker)
        requires
            player_id < 4,
        ensures
            r.state.spec_player() == player_id,
            r.state.hand().len() == 0,
            r.kyoku == 0,
            r.honba == 0,
            r.end_status@.len() == 0,
            r.junme == 0,
            r.tiles_left == WALL_TILES,
            !r.is_riichied,
    {
        AkochanTracker {
            state: State::new(player_id),
            kyoku: 0,
            honba: 0,
            end_status: Vec::new(),
            junme: 0,
            tiles_left: WALL_TILES,
            is_riichied: false,
        }
    }

    /// Takes in the next event, with `remaining` events left from it to the
    /// end: updates the player's state, then the bookkeeping, and says
    /// whether the engine's answer to the event is to be reviewed, which
    /// needs at least four events left; a state that cannot take the event
    /// fails.
    pub fn observe(&mut self, event: &Event, remaining: usize) -> (r: Result<AkochanStep, AkochanError>)
        requires
            old(self).state.spec_player() < 4,
            countable_start(*event),
            old(self).junme < 255,
            event is Tsumo ==> old(self).tiles_left > 0,
        ensures
            final(self).state.spec_player() == old(self).state.spec_player(),
            match r {
                Err(AkochanError::State(e)) => updated(old(self).state, *event, final(self).state, Err(e)),
                _ => updated(old(self).state, *event, final(self).state, Ok(()))
                    && akochan_observed(*old(self), *event, remaining, *final(self), r),
            },
    {
        match self.state.update(event) {
            Ok(()) => {},
            Err(e) => {
                return Err(AkochanError::State(e));
            },
        }
        let pid = self.state.player_id();
        let review: Option<(u8, Pai, bool)> = match event {
            Event::StartKyoku { bakaze, kyoku, honba, .. } => {
                self.kyoku = kyoku_number_exec(*bakaze, *kyoku);
                self.honba = *honba;
                self.is_riichied = false;
                self.tiles_left = WALL_TILES;
                None
            },
            Event::EndKyoku => {
                let mut end_status: Vec<Event> = Vec::new();
                std::mem::swap(&mut end_status, &mut self.end_status);
                let step = AkochanStep::KyokuEnd { kyoku: self.kyoku, honba: self.honba, end_status };
                self.kyoku = 0;
                self.honba = 0;
                self.junme = 0;
                proof {
                    lemma_same_events_refl(old(self).end_status@);
                }
                return Ok(step);
            },
            Event::Hora { .. } => {
                self.end_status.push(event.duplicate());
                proof {
                    assert(self.end_status@.take(old(self).end_status@.len() as int)
                        =~= old(self).end_status@);
                }
                None
            },
            Event::Ryukyoku { .. } => {
                self.end_status.push(event.duplicate());
                proof {
                    assert(self.end_status@.take(old(self).end_status@.len() as int)
                        =~= old(self).end_status@);
                }
                None
            },
            Event::Dahai { actor, pai, .. } => if *actor != pid {
                Some((*actor, *pai, false))
            } else {
                None
            },
            Event::Kakan { actor, pai, .. } => if *actor != pid {
                Some((*actor, *pai, true))
            } else {
                None
            },
            Event::Tsumo { actor, pai } => {
                self.tiles_left = self.tiles_left - 1;
                if *actor != pid {
                    None
                } else {
                    self.junme = self.junme + 1;
                    Some((*actor, *pai, false))
                }
            },
            Event::Chi { actor, .. } => {
                if *actor == pid {
                    self.junme = self.junme + 1;
                }
                None
            },
            Event::Pon { actor, .. } => {
                if *actor == pid {
                    self.junme = self.junme + 1;
                }
                None
            },
            Event::ReachAccepted { actor } => {
                if *actor == pid {
                    self.is_riichied = true;
                }
                None
            },
            _ => None,
        };
        match review {
            Some((last_actor, tile, at_opponent_kakan)) => {
                if remaining < 4 {
                    Err(AkochanError::TooFewEvents)
                } else {
                    Ok(AkochanStep::Review { last_actor, tile, at_opponent_kakan })
                }
            },
            None => Ok(AkochanStep::Pass),
        }
    }
}

} // verus!
