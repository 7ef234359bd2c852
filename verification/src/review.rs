use vstd::prelude::*;

use crate::mjai::{same_event, Event};
use crate::pai::Pai;
use crate::state::State;
use vstd::multiset::Multiset;

verus! {

broadcast use vstd::seq_lib::group_to_multiset_ensures;

/// The tiles, with the red fives counted as plain fives where `ignore_aka`.
pub open spec fn normalized(s: Seq<Pai>, ignore_aka: bool) -> Seq<Pai> {
    if ignore_aka {
        s.map_values(|p: Pai| p.spec_deaka())
    } else {
        s
    }
}

/// Two lists hold the same tiles as many times each, in any order; red
/// fives count as plain ones where `ignore_aka`.
pub open spec fn same_tile_set(l: Seq<Pai>, r: Seq<Pai>, ignore_aka: bool) -> bool {
    normalized(l, ignore_aka).to_multiset() == normalized(r, ignore_aka).to_multiset()
}

/// A copy of the tiles, red fives made plain where `ignore_aka`.
fn normalize(s: &[Pai], ignore_aka: bool) -> (r: Vec<Pai>)
    ensures
        r@ == normalized(s@, ignore_aka),
{
    let mut out: Vec<Pai> = Vec::new();
    let mut i: usize = 0;
    while i < s.len()
        invariant
            i <= s@.len(),
            out@ == normalized(s@, ignore_aka).take(i as int),
        decreases s@.len() - i,
    {
        let p = if ignore_aka {
            s[i].deaka()
        } else {
            s[i]
        };
        out.push(p);
        i = i + 1;
        proof {
            assert(out@ =~= normalized(s@, ignore_aka).take(i as int));
        }
    }
    proof {
        assert(normalized(s@, ignore_aka).take(i as int) =~= normalized(s@, ignore_aka));
    }
    out
}

/// Whether two lists hold the same tiles as many times each, in any order;
/// red fives count as plain ones where `ignore_aka`.
pub fn tile_set_eq(l: &[Pai], r: &[Pai], ignore_aka: bool) -> (res: bool)
    ensures
        res == same_tile_set(l@, r@, ignore_aka),
{
    let ln = normalize(l, ignore_aka);
    let mut rem = normalize(r, ignore_aka);
    let ghost lv = ln@;
    let ghost rv = rem@;
    if ln.len() != rem.len() {
        proof {
            assert(lv.to_multiset().len() != rv.to_multiset().len());
        }
        return false;
    }
    let mut i: usize = 0;
    while i < ln.len()
        invariant
            lv == ln@,
            lv == normalized(l@, ignore_aka),
            rv == normalized(r@, ignore_aka),
            i <= lv.len(),
            rem@.len() + i == rv.len(),
            lv.len() == rv.len(),
            lv.take(i as int).to_multiset().add(rem@.to_multiset()) == rv.to_multiset(),
        decreases lv.len() - i,
    {
        let x = ln[i];
        let mut j: usize = 0;
        while j < rem.len() && rem[j] != x
            invariant
                j <= rem@.len(),
                forall|k: int| 0 <= k < j ==> rem@[k] != x,
            decreases rem@.len() - j,
        {
            j = j + 1;
        }
        let found = j < rem.len();
        proof {
            assert(lv.take(i + 1) =~= lv.take(i as int).push(x));
        }
        if !found {
            proof {
                assert(!rem@.contains(x));
                assert(rem@.to_multiset().count(x) == 0);
                assert(lv =~= lv.take(i + 1) + lv.skip(i + 1));
                vstd::seq_lib::lemma_multiset_commutative(lv.take(i + 1), lv.skip(i + 1));
                assert(lv.to_multiset().count(x) >= lv.take(i + 1).to_multiset().count(x));
                assert(lv.to_multiset().count(x) > rv.to_multiset().count(x));
            }
            return false;
        }
        let ghost before = rem@;
        assert(before[j as int] == x);
        rem.remove(j);
        proof {
            assert(before.to_multiset() == rem@.to_multiset().insert(x)) by {
                assert(before =~= rem@.insert(j as int, x));
            }
            assert(lv.take(i + 1).to_multiset() == lv.take(i as int).to_multiset().insert(x));
            assert(lv.take(i + 1).to_multiset().add(rem@.to_multiset()) =~= lv.take(
                i as int,
            ).to_multiset().add(before.to_multiset()));
        }
        i = i + 1;
    }
    proof {
        assert(lv.take(i as int) =~= lv);
        assert(rem@.len() == 0);
        assert(rem@.to_multiset() =~= Multiset::empty());
        assert(lv.to_multiset() =~= lv.to_multiset().add(rem@.to_multiset()));
    }
    true
}

/// The number of actions an engine chooses among: discards of the 37 tile
/// kinds, riichi, three chis, pon, kan, win, draw and pass.
pub const ACTION_SPACE: usize = 46;

/// Whether bit `i` of `bits` is set.
pub open spec fn bit_set(bits: u64, i: int) -> bool {
    (bits >> (i as u64)) & 1 == 1
}

/// The actions that a mask of bits allows: action `i` where bit `i` is set.
pub fn mask_from_bits(bits: u64) -> (r: [bool; 46])
    ensures
        forall|i: int| 0 <= i < 46 ==> r[i] == bit_set(bits, i),
{
    let mut ret = [false; 46];
    let mut i: usize = 0;
    while i < 46
        invariant
            i <= 46,
            forall|k: int| 0 <= k < i ==> ret[k] == bit_set(bits, k),
        decreases 46 - i,
    {
        ret[i] = (bits >> (i as u64)) & 1 == 1;
        i = i + 1;
    }
    ret
}

/// How many of the lowest `n` bits of `bits` are set.
pub open spec fn bits_count(bits: u64, n: nat) -> nat
    decreases n,
{
    if n == 0 {
        0
    } else {
        bits_count(bits, (n - 1) as nat) + if bit_set(bits, n - 1) {
            1nat
        } else {
            0nat
        }
    }
}

/// How many actions a mask of bits allows: the number of bits set.
pub fn count_bits(bits: u64) -> (r: u32)
    ensures
        r == bits_count(bits, 64),
{
    let mut n: u32 = 0;
    let mut i: u64 = 0;
    while i < 64
        invariant
            i <= 64,
            n == bits_count(bits, i as nat),
            n <= i,
        decreases 64 - i,
    {
        if (bits >> i) & 1 == 1 {
            n = n + 1;
        }
        i = i + 1;
    }
    n
}

/// The review of a turn is skipped where the engine offers one action only
/// and that action is to pass, or the player is in riichi (nothing but the
/// drawn tile can go), unless the player in fact called a chi or a pon.
pub open spec fn review_skipped(
    num_actions: int,
    first_move: Event,
    is_riichied: bool,
    actual: Event,
    player_id: u8,
) -> bool {
    &&& num_actions == 1
    &&& (is_riichied || first_move is NoAction)
    &&& !(match actual {
        Event::Pon { actor, .. } => actor == player_id,
        Event::Chi { actor, .. } => actor == player_id,
        _ => false,
    })
}

/// Whether the review of a turn is skipped: see `review_skipped`.
pub fn skip_review(
    num_actions: usize,
    first_move: &Event,
    is_riichied: bool,
    actual: &Event,
    player_id: u8,
) -> (r: bool)
    ensures
        r == review_skipped(num_actions as int, *first_move, is_riichied, *actual, player_id),
{
    if num_actions != 1 {
        return false;
    }
    let pass = match first_move {
        Event::NoAction => true,
        _ => false,
    };
    if !(is_riichied || pass) {
        return false;
    }
    match actual {
        Event::Pon { actor, .. } => *actor != player_id,
        Event::Chi { actor, .. } => *actor != player_id,
        _ => true,
    }
}

/// Two actions of the same player agree, the red fives among the tiles a
/// call uses set aside: the same discard, riichi, call with the same tiles,
/// added kan of the same tile, win, draw, or both passing.
pub open spec fn agree_ignoring_aka(a: Event, b: Event) -> bool {
    match (a, b) {
        (Event::Dahai { pai: l, .. }, Event::Dahai { pai: r, .. }) => l == r,
        (Event::Reach { .. }, Event::Reach { .. }) => true,
        (Event::Chi { consumed: l, .. }, Event::Chi { consumed: r, .. }) => same_tile_set(
            l@,
            r@,
            true,
        ),
        (Event::Pon { consumed: l, .. }, Event::Pon { consumed: r, .. }) => same_tile_set(
            l@,
            r@,
            true,
        ),
        (Event::Daiminkan { consumed: l, .. }, Event::Daiminkan { consumed: r, .. }) => same_tile_set(
            l@,
            r@,
            true,
        ),
        (Event::Ankan { consumed: l, .. }, Event::Ankan { consumed: r, .. }) => same_tile_set(
            l@,
            r@,
            true,
        ),
        (Event::Kakan { pai: l, .. }, Event::Kakan { pai: r, .. }) => l == r,
        (Event::Hora { .. }, Event::Hora { .. }) => true,
        (Event::Ryukyoku { .. }, Event::Ryukyoku { .. }) => true,
        (Event::NoAction, Event::NoAction) => true,
        _ => false,
    }
}

/// Whether two actions of the same player agree, the red fives among the
/// tiles a call uses set aside.
pub fn equal_ignore_aka_consumed(a: &Event, b: &Event) -> (r: bool)
    ensures
        r == agree_ignoring_aka(*a, *b),
{
    match (a, b) {
        (Event::Dahai { pai: l, .. }, Event::Dahai { pai: r, .. }) => *l == *r,
        (Event::Reach { .. }, Event::Reach { .. }) => true,
        (Event::Chi { consumed: l, .. }, Event::Chi { consumed: r, .. }) => tile_set_eq(
            l.as_slice(),
            r.as_slice(),
            true,
        ),
        (Event::Pon { consumed: l, .. }, Event::Pon { consumed: r, .. }) => tile_set_eq(
            l.as_slice(),
            r.as_slice(),
            true,
        ),
        (Event::Daiminkan { consumed: l, .. }, Event::Daiminkan { consumed: r, .. }) => tile_set_eq(
            l.as_slice(),
            r.as_slice(),
            true,
        ),
        (Event::Ankan { consumed: l, .. }, Event::Ankan { consumed: r, .. }) => tile_set_eq(
            l.as_slice(),
            r.as_slice(),
            true,
        ),
        (Event::Kakan { pai: l, .. }, Event::Kakan { pai: r, .. }) => *l == *r,
        (Event::Hora { .. }, Event::Hora { .. }) => true,
        (Event::Ryukyoku { .. }, Event::Ryukyoku { .. }) => true,
        (Event::NoAction, Event::NoAction) => true,
        _ => false,
    }
}

/// Why an action could not be put into or taken out of the engine's
/// action numbering.
#[derive(Debug)]
pub enum LabelError {
    /// The action is not a kan, where a kan was asked for.
    NotKanAction(Event),
    /// A kan number names no tile.
    InvalidKanLabel(usize),
    /// A call was asked for and no discard is there to call.
    MissingLastTile(CallKind),
    /// A number that names no action.
    UnexpectedLabel(usize),
}

/// A kind of call on a discard.
#[derive(Debug, Clone, Copy, PartialEq, Eq, Structural)]
pub enum CallKind {
    Chi,
    Pon,
    Daiminkan,
    Reach,
}

/// The number of a chi by where the called tile stands among the three:
/// lowest, middle or highest.
pub open spec fn chi_label(pai: Pai, consumed: [Pai; 2]) -> usize {
    let a = consumed[0].spec_deaka().tile_id();
    let b = consumed[1].spec_deaka().tile_id();
    let lo = if a < b {
        a
    } else {
        b
    };
    let hi = if a < b {
        b
    } else {
        a
    };
    let x = pai.spec_deaka().tile_id();
    if x < lo {
        38
    } else if x < hi {
        39
    } else {
        40
    }
}

/// The engine's number of an action; at the choice of a kan, the number of
/// the kan's tile, and anything but a kan there has none.
pub open spec fn label_of(ev: Event, at_kan_select: bool) -> Option<usize> {
    if at_kan_select {
        match ev {
            Event::Ankan { consumed, .. } => Some(consumed[0].spec_deaka().tile_id() as usize),
            Event::Kakan { pai, .. } => Some(pai.spec_deaka().tile_id() as usize),
            _ => None,
        }
    } else {
        Some(
            match ev {
                Event::Dahai { pai, .. } => pai.tile_id() as usize,
                Event::Reach { .. } => 37,
                Event::Chi { pai, consumed, .. } => chi_label(pai, consumed),
                Event::Pon { .. } => 41,
                Event::Daiminkan { .. } => 42,
                Event::Ankan { .. } => 42,
                Event::Kakan { .. } => 42,
                Event::Hora { .. } => 43,
                Event::Ryukyoku { .. } => 44,
                _ => 45,
            },
        )
    }
}

/// The engine's number of an action.
pub fn to_label(ev: &Event, at_kan_select: bool) -> (r: Result<usize, LabelError>)
    ensures
        match label_of(*ev, at_kan_select) {
            Some(l) => r == Ok::<usize, LabelError>(l),
            None => r matches Err(LabelError::NotKanAction(e)) && same_event(e, *ev),
        },
{
    if at_kan_select {
        return match ev {
            Event::Ankan { consumed, .. } => Ok(consumed[0].deaka().to_tile_id() as usize),
            Event::Kakan { pai, .. } => Ok(pai.deaka().to_tile_id() as usize),
            _ => Err(LabelError::NotKanAction(ev.duplicate())),
        };
    }
    let label = match ev {
        Event::Dahai { pai, .. } => pai.to_tile_id() as usize,
        Event::Reach { .. } => 37,
        Event::Chi { pai, consumed, .. } => {
            let a = consumed[0].deaka().to_tile_id();
            let b = consumed[1].deaka().to_tile_id();
            let lo = if a < b {
                a
            } else {
                b
            };
            let hi = if a < b {
                b
            } else {
                a
            };
            let x = pai.deaka().to_tile_id();
            if x < lo {
                38
            } else if x < hi {
                39
            } else {
                40
            }
        },
        Event::Pon { .. } => 41,
        Event::Daiminkan { .. } => 42,
        Event::Ankan { .. } => 42,
        Event::Kakan { .. } => 42,
        Event::Hora { .. } => 43,
        Event::Ryukyoku { .. } => 44,
        _ => 45,
    };
    Ok(label)
}

/// The tiles a call uses, made plain: a red five counts as its plain five.
pub open spec fn plain_pair(x: Pai, y: Pai) -> [Pai; 2] {
    [x.spec_deaka(), y.spec_deaka()]
}

/// The action that an engine's number stands for, as the player of the
/// state would make it: `target` is the player called from and `last` the
/// last tile drawn or discarded. A chi or a pon uses plain tiles (no red
/// five among them); every kan comes out as a closed kan.
pub open spec fn event_of(
    state: State,
    label: usize,
    target: u8,
    last: Option<Pai>,
    at_kan_select: bool,
) -> Result<Event, LabelError> {
    let actor = state.spec_player();
    if at_kan_select {
        if label >= 34 {
            Err(LabelError::InvalidKanLabel(label))
        } else {
            let t = Pai::tile_from_id(label as int);
            Ok(Event::Ankan { actor, consumed: [t, t, t, t] })
        }
    } else if label <= 36 {
        Ok(
            Event::Dahai {
                actor,
                pai: Pai::tile_from_id(label as int),
                tsumogiri: match last {
                    Some(t) => t.tile_id() == label,
                    None => false,
                },
            },
        )
    } else if label == 37 {
        Ok(Event::Reach { actor })
    } else if 38 <= label <= 42 {
        match last {
            None => Err(
                LabelError::MissingLastTile(
                    if label <= 40 {
                        CallKind::Chi
                    } else if label == 41 {
                        CallKind::Pon
                    } else {
                        CallKind::Daiminkan
                    },
                ),
            ),
            Some(pai) => if label == 38 {
                Ok(
                    Event::Chi {
                        actor,
                        target,
                        pai,
                        consumed: plain_pair(pai.spec_next(), pai.spec_next().spec_next()),
                    },
                )
            } else if label == 39 {
                Ok(
                    Event::Chi {
                        actor,
                        target,
                        pai,
                        consumed: plain_pair(pai.spec_prev(), pai.spec_next()),
                    },
                )
            } else if label == 40 {
                Ok(
                    Event::Chi {
                        actor,
                        target,
                        pai,
                        consumed: plain_pair(pai.spec_prev().spec_prev(), pai.spec_prev()),
                    },
                )
            } else if label == 41 {
                Ok(Event::Pon { actor, target, pai, consumed: plain_pair(pai, pai) })
            } else {
                Ok(
                    Event::Ankan {
                        actor,
                        consumed: [pai, pai.spec_deaka(), pai.spec_deaka(), pai.spec_deaka()],
                    },
                )
            },
        }
    } else if label == 43 {
        Ok(Event::Hora { actor, target, deltas: None, ura_markers: None })
    } else if label == 44 {
        Ok(Event::Ryukyoku { deltas: None })
    } else if label == 45 {
        Ok(Event::NoAction)
    } else {
        Err(LabelError::UnexpectedLabel(label))
    }
}

/// The tiles a call uses, made plain.
fn plain_pair_exec(x: Pai, y: Pai) -> (r: [Pai; 2])
    ensures
        r == plain_pair(x, y),
{
    [x.deaka(), y.deaka()]
}

/// The action that an engine's number stands for, as the player of the
/// state would make it.
pub fn to_event(
    state: &State,
    label: usize,
    target: u8,
    last_tsumo_or_discard: Option<Pai>,
    at_kan_select: bool,
) -> (r: Result<Event, LabelError>)
    ensures
        match event_of(*state, label, target, last_tsumo_or_discard, at_kan_select) {
            Ok(e) => r matches Ok(x) && same_event(x, e),
            Err(f) => r matches Err(x) && x == f,
        },
{
    let actor = state.player_id();
    if at_kan_select {
        if label >= 34 {
            return Err(LabelError::InvalidKanLabel(label));
        }
        let t = Pai::from_tile_id(label as u8);
        return Ok(Event::Ankan { actor, consumed: [t, t, t, t] });
    }
    if label <= 36 {
        let tsumogiri = match last_tsumo_or_discard {
            Some(t) => t.to_tile_id() as usize == label,
            None => false,
        };
        return Ok(Event::Dahai { actor, pai: Pai::from_tile_id(label as u8), tsumogiri });
    }
    if label == 37 {
        return Ok(Event::Reach { actor });
    }
    if label >= 38 && label <= 42 {
        let pai = match last_tsumo_or_discard {
            Some(p) => p,
            None => {
                let kind = if label <= 40 {
                    CallKind::Chi
                } else if label == 41 {
                    CallKind::Pon
                } else {
                    CallKind::Daiminkan
                };
                return Err(LabelError::MissingLastTile(kind));
            },
        };
        let ev = if label == 38 {
            Event::Chi { actor, target, pai, consumed: plain_pair_exec(pai.next(), pai.next().next()) }
        } else if label == 39 {
            Event::Chi { actor, target, pai, consumed: plain_pair_exec(pai.prev(), pai.next()) }
        } else if label == 40 {
            Event::Chi { actor, target, pai, consumed: plain_pair_exec(pai.prev().prev(), pai.prev()) }
        } else if label == 41 {
            Event::Pon { actor, target, pai, consumed: plain_pair_exec(pai, pai) }
        } else {
            Event::Ankan { actor, consumed: [pai, pai.deaka(), pai.deaka(), pai.deaka()] }
        };
        return Ok(ev);
    }
    if label == 43 {
        return Ok(Event::Hora { actor, target, deltas: None, ura_markers: None });
    }
    if label == 44 {
        return Ok(Event::Ryukyoku { deltas: None });
    }
    if label == 45 {
        return Ok(Event::NoAction);
    }
    Err(LabelError::UnexpectedLabel(label))
}

/// The event only tells of what came before: a new dora indicator or an
/// accepted riichi.
pub open spec fn is_notice(e: Event) -> bool {
    e is Dora || e is ReachAccepted
}

/// The position of the first event at or after `i` that is not a notice.
pub open spec fn first_action(evs: Seq<Event>, i: int) -> int
    decreases evs.len() - i,
{
    if i < 0 || i >= evs.len() {
        i
    } else if is_notice(evs[i]) {
        first_action(evs, i + 1)
    } else {
        i
    }
}

/// How many events make up an action: a win with up to two more wins, a
/// chi, pon or riichi with its discard, or one event.
pub open spec fn action_len(e: Event) -> int {
    if e is Hora {
        3
    } else if e is Chi || e is Pon || e is Reach {
        2
    } else {
        1
    }
}

/// The events hold a whole action after the notices at their start.
pub open spec fn has_action(evs: Seq<Event>) -> bool {
    let k = first_action(evs, 0);
    0 <= k < evs.len() && k + action_len(evs[k]) <= evs.len()
}

/// The next action after the notices at the start of the events, with the
/// events that belong to it.
pub fn next_action_for_compare(events: &[Event]) -> (r: &[Event])
    requires
        has_action(events@),
    ensures
        ({
            let k = first_action(events@, 0);
            r@ == events@.subrange(k, k + action_len(events@[k]))
        }),
{
    let mut i: usize = 0;
    while i < events.len() && (matches!(events[i], Event::Dora { .. }) || matches!(
        events[i],
        Event::ReachAccepted { .. }
    ))
        invariant
            i <= events@.len(),
            first_action(events@, 0) == first_action(events@, i as int),
        decreases events@.len() - i,
    {
        i = i + 1;
    }
    let n: usize = match &events[i] {
        Event::Hora { .. } => 3,
        Event::Chi { .. } => 2,
        Event::Pon { .. } => 2,
        Event::Reach { .. } => 2,
        _ => 1,
    };
    vstd::slice::slice_subrange(events, i, i + n)
}

/// The position of the first win of `pid` among the first three events
/// from `i` on.
pub open spec fn hora_of_player(evs: Seq<Event>, pid: u8, i: int) -> Option<int>
    decreases 3 - i,
{
    if i < 0 || i >= 3 || i >= evs.len() {
        None
    } else if evs[i] matches Event::Hora { actor, .. } && actor == pid {
        Some(i)
    } else {
        hora_of_player(evs, pid, i + 1)
    }
}

/// What the player did, from the events of the next action: a draw means
/// he passed a call, the win that is his among several, nothing where
/// another player acted, else the action itself.
pub open spec fn strict_action(rough: Seq<Event>, pid: u8) -> Seq<Event> {
    match rough[0] {
        Event::Tsumo { .. } => seq![Event::NoAction],
        Event::Hora { .. } => match hora_of_player(rough, pid, 0) {
            Some(i) => seq![rough[i]],
            None => seq![Event::NoAction],
        },
        _ => match rough[0].spec_actor() {
            Some(a) => if a != pid {
                seq![Event::NoAction]
            } else {
                rough
            },
            None => rough,
        },
    }
}

/// Two event lists say the same, event by event.
pub open spec fn same_events(a: Seq<Event>, b: Seq<Event>) -> bool {
    a.len() == b.len() && forall|i: int| 0 <= i < a.len() ==> same_event(#[trigger] a[i], b[i])
}

/// A copy of the events.
fn copy_events(evs: &[Event]) -> (r: Vec<Event>)
    ensures
        same_events(r@, evs@),
{
    let mut out: Vec<Event> = Vec::new();
    let mut i: usize = 0;
    while i < evs.len()
        invariant
            i <= evs@.len(),
            out@.len() == i,
            forall|j: int| 0 <= j < i ==> same_event(#[trigger] out@[j], evs@[j]),
        decreases evs@.len() - i,
    {
        out.push(evs[i].duplicate());
        i = i + 1;
    }
    out
}

/// The position of the first win of `pid` among the first three events.
fn hora_of_player_exec(evs: &[Event], pid: u8) -> (r: Option<usize>)
    ensures
        match r {
            Some(i) => i < evs@.len() && hora_of_player(evs@, pid, 0) == Some(i as int),
            None => hora_of_player(evs@, pid, 0) is None,
        },
{
    let mut i: usize = 0;
    while i < 3 && i < evs.len()
        invariant
            i <= 3,
            hora_of_player(evs@, pid, 0) == hora_of_player(evs@, pid, i as int),
        decreases 3 - i,
    {
        if let Event::Hora { actor, .. } = &evs[i] {
            if *actor == pid {
                return Some(i);
            }
        }
        i = i + 1;
    }
    None
}

/// What the player did, from the events of the next action.
pub fn next_action_strict(rough_action: &[Event], player_id: u8) -> (r: Vec<Event>)
    requires
        rough_action@.len() > 0,
    ensures
        same_events(r@, strict_action(rough_action@, player_id)),
{
    match &rough_action[0] {
        Event::Tsumo { .. } => {
            let mut v: Vec<Event> = Vec::new();
            v.push(Event::NoAction);
            v
        },
        Event::Hora { .. } => {
            let mut v: Vec<Event> = Vec::new();
            match hora_of_player_exec(rough_action, player_id) {
                Some(i) => v.push(rough_action[i].duplicate()),
                None => v.push(Event::NoAction),
            }
            v
        },
        _ => match rough_action[0].actor() {
            Some(a) => {
                if a != player_id {
                    let mut v: Vec<Event> = Vec::new();
                    v.push(Event::NoAction);
                    v
                } else {
                    copy_events(rough_action)
                }
            },
            None => copy_events(rough_action),
        },
    }
}

/// Two events match where tsumogiri and the score changes of a win are
/// set aside.
pub open spec fn strict_match(e: Event, a: Event) -> bool {
    match (e, a) {
        (Event::Dahai { pai: x, .. }, Event::Dahai { pai: y, .. }) => x == y,
        (Event::Hora { actor: x, .. }, Event::Hora { actor: y, .. }) => x == y,
        _ => same_event(e, a),
    }
}

/// The two actions match event by event, as far as both go.
pub open spec fn actions_match(actual: Seq<Event>, expected: Seq<Event>) -> bool {
    forall|i: int|
        0 <= i < expected.len() && i < actual.len() ==> strict_match(
            #[trigger] expected[i],
            actual[i],
        )
}

/// Whether the actual action is the expected one, event by event as far
/// as both go, tsumogiri and the score changes of a win set aside.
pub fn compare_action_strict(actual_action: &[Event], expected_action: &[Event]) -> (r: bool)
    ensures
        r == actions_match(actual_action@, expected_action@),
{
    let mut i: usize = 0;
    while i < expected_action.len() && i < actual_action.len()
        invariant
            forall|j: int|
                0 <= j < i && j < expected_action@.len() && j < actual_action@.len()
                    ==> strict_match(#[trigger] expected_action@[j], actual_action@[j]),
        decreases expected_action@.len() - i,
    {
        let e = &expected_action[i];
        let a = &actual_action[i];
        let ok = match (e, a) {
            (Event::Dahai { pai: x, .. }, Event::Dahai { pai: y, .. }) => *x == *y,
            (Event::Hora { actor: x, .. }, Event::Hora { actor: y, .. }) => *x == *y,
            _ => e.same_as(a),
        };
        if !ok {
            return false;
        }
        i = i + 1;
    }
    true
}

/// What the player did next, from the events after a decision: the
/// notices are passed over; a draw means he passed a call; among several
/// wins, his; nothing where another player acted instead; else the action.
pub open spec fn next_action_of(evs: Seq<Event>, pid: u8) -> Option<Event> {
    let k = first_action(evs, 0);
    let ev = evs[k];
    match ev {
        Event::Tsumo { .. } => Some(Event::NoAction),
        Event::Hora { .. } => match hora_of_player(evs.skip(k), pid, 0) {
            Some(i) => Some(evs[k + i]),
            None => None,
        },
        _ => match ev.spec_actor() {
            Some(a) => if a != pid {
                None
            } else {
                Some(ev)
            },
            None => Some(ev),
        },
    }
}

/// What the player did next, from the events after a decision; `None`
/// where he had no chance to act.
pub fn next_action(events: &[Event], player_id: u8) -> (r: Option<Event>)
    requires
        first_action(events@, 0) < events@.len(),
    ensures
        match next_action_of(events@, player_id) {
            Some(e) => r matches Some(x) && same_event(x, e),
            None => r is None,
        },
{
    let mut i: usize = 0;
    while i < events.len() && (matches!(events[i], Event::Dora { .. }) || matches!(
        events[i],
        Event::ReachAccepted { .. }
    ))
        invariant
            i <= events@.len(),
            first_action(events@, 0) == first_action(events@, i as int),
        decreases events@.len() - i,
    {
        i = i + 1;
    }
    let ev = &events[i];
    match ev {
        Event::Tsumo { .. } => Some(Event::NoAction),
        Event::Hora { .. } => {
            let rest = vstd::slice::slice_subrange(events, i, events.len());
            match hora_of_player_exec(rest, player_id) {
                Some(j) => Some(rest[j].duplicate()),
                None => None,
            }
        },
        _ => match ev.actor() {
            Some(a) => {
                if a != player_id {
                    None
                } else {
                    Some(ev.duplicate())
                }
            },
            None => Some(ev.duplicate()),
        },
    }
}

/// Why two actions could not be compared.
#[derive(Debug)]
pub enum CompareError {
    /// The event after a riichi, chi or pon is not a discard; `got` is the
    /// event found there.
    NotDahaiAfter { call: CallKind, got: Option<Event> },
    /// An event that no expected action can be compared with.
    UnexpectedEvent(Event),
}

/// The event at position `i`, where there is one.
pub open spec fn event_at(s: Seq<Event>, i: int) -> Option<Event> {
    if 0 <= i < s.len() {
        Some(s[i])
    } else {
        None
    }
}

/// The tile of a discard.
pub open spec fn dahai_pai(e: Option<Event>) -> Option<Pai> {
    match e {
        Some(Event::Dahai { pai, .. }) => Some(pai),
        _ => None,
    }
}

/// Two optional events say the same.
pub open spec fn same_opt_event(a: Option<Event>, b: Option<Event>) -> bool {
    match (a, b) {
        (Some(x), Some(y)) => same_event(x, y),
        (None, None) => true,
        _ => false,
    }
}

/// Two comparison errors say the same.
pub open spec fn same_compare_error(a: CompareError, b: CompareError) -> bool {
    match (a, b) {
        (
            CompareError::NotDahaiAfter { call: c1, got: g1 },
            CompareError::NotDahaiAfter { call: c2, got: g2 },
        ) => c1 == c2 && same_opt_event(g1, g2),
        (CompareError::UnexpectedEvent(x), CompareError::UnexpectedEvent(y)) => same_event(x, y),
        _ => false,
    }
}

/// After a riichi, chi or pon that both made: whether the discards that
/// follow are of the same tile.
pub open spec fn after_call(actual: Seq<Event>, expected: Seq<Event>, call: CallKind) -> Result<
    bool,
    CompareError,
> {
    match dahai_pai(event_at(actual, 1)) {
        Some(ap) => match dahai_pai(event_at(expected, 1)) {
            Some(ep) => Ok(ap == ep),
            None => Err(CompareError::NotDahaiAfter { call, got: event_at(expected, 1) }),
        },
        None => Err(CompareError::NotDahaiAfter { call, got: event_at(actual, 1) }),
    }
}

/// Where the player's call did not happen: innocent if another player
/// acted first.
pub open spec fn interrupted(a: Event, pid: u8) -> Result<bool, CompareError> {
    match a.spec_actor() {
        Some(x) => Ok(x != pid),
        None => Err(CompareError::UnexpectedEvent(a)),
    }
}

/// The actions agree event by event as far as both go.
pub open spec fn all_same(actual: Seq<Event>, expected: Seq<Event>) -> bool {
    forall|i: int|
        0 <= i < expected.len() && i < actual.len() ==> same_event(#[trigger] expected[i], actual[i])
}

/// The event is a discard of `p`.
pub open spec fn is_discard_of(e: Event, p: Pai) -> bool {
    &&& e matches Event::Dahai { pai, .. }
    &&& pai == p
}

/// The event is an added kan of `p`.
pub open spec fn is_kakan_of(e: Event, p: Pai) -> bool {
    &&& e matches Event::Kakan { pai, .. }
    &&& pai == p
}

/// The event is a win of `pid`.
pub open spec fn is_hora_of(e: Event, pid: u8) -> bool {
    &&& e matches Event::Hora { actor, .. }
    &&& actor == pid
}

/// Whether the actual action equals the expected one or is innocent: the
/// same discard or kan tile, the same call with the same tiles and the
/// same discard after it, a call that another player's action cut off,
/// the player's win among several, or a pass where nothing was to be done.
pub open spec fn compare_outcome(actual: Seq<Event>, expected: Seq<Event>, pid: u8) -> Result<
    bool,
    CompareError,
> {
    if all_same(actual, expected) {
        Ok(true)
    } else {
        let a = actual[0];
        match expected[0] {
            Event::Dahai { pai, .. } => Ok(is_discard_of(a, pai)),
            Event::Ankan { consumed, .. } => Ok(
                match a {
                    Event::Ankan { consumed: ac, .. } => same_tile_set(ac@, consumed@, false),
                    _ => false,
                },
            ),
            Event::Kakan { pai, .. } => Ok(is_kakan_of(a, pai)),
            Event::Reach { .. } => if a is Reach {
                after_call(actual, expected, CallKind::Reach)
            } else {
                Ok(false)
            },
            Event::Chi { consumed, .. } => if a is Tsumo {
                Ok(false)
            } else {
                match a {
                    Event::Chi { consumed: ac, .. } => if same_tile_set(ac@, consumed@, false) {
                        after_call(actual, expected, CallKind::Chi)
                    } else {
                        interrupted(a, pid)
                    },
                    _ => interrupted(a, pid),
                }
            },
            Event::Pon { consumed, .. } => if a is Tsumo {
                Ok(false)
            } else {
                match a {
                    Event::Pon { consumed: ac, .. } => if same_tile_set(ac@, consumed@, false) {
                        after_call(actual, expected, CallKind::Pon)
                    } else {
                        interrupted(a, pid)
                    },
                    _ => interrupted(a, pid),
                }
            },
            Event::Daiminkan { .. } => if a is Tsumo {
                Ok(false)
            } else if a is Daiminkan {
                Ok(true)
            } else {
                interrupted(a, pid)
            },
            Event::Hora { .. } => Ok(
                exists|i: int| 0 <= i < 3 && i < actual.len() && #[trigger] is_hora_of(actual[i], pid),
            ),
            Event::NoAction => if a is Tsumo || a is Ryukyoku {
                Ok(true)
            } else {
                interrupted(a, pid)
            },
            Event::Ryukyoku { .. } => Ok(a is Ryukyoku),
            _ => Err(CompareError::UnexpectedEvent(a)),
        }
    }
}

/// After a riichi, chi or pon that both made: whether the discards that
/// follow are of the same tile.
fn after_call_exec(actual: &[Event], expected: &[Event], call: CallKind) -> (r: Result<
    bool,
    CompareError,
>)
    ensures
        match after_call(actual@, expected@, call) {
            Ok(b) => r == Ok::<bool, CompareError>(b),
            Err(f) => r matches Err(x) && same_compare_error(x, f),
        },
{
    let next_actual: Option<&Event> = if actual.len() > 1 {
        Some(&actual[1])
    } else {
        None
    };
    match next_actual {
        Some(Event::Dahai { pai: ap, .. }) => {
            let next_expected: Option<&Event> = if expected.len() > 1 {
                Some(&expected[1])
            } else {
                None
            };
            match next_expected {
                Some(Event::Dahai { pai: ep, .. }) => Ok(*ap == *ep),
                Some(e) => Err(CompareError::NotDahaiAfter { call, got: Some(e.duplicate()) }),
                None => Err(CompareError::NotDahaiAfter { call, got: None }),
            }
        },
        Some(e) => Err(CompareError::NotDahaiAfter { call, got: Some(e.duplicate()) }),
        None => Err(CompareError::NotDahaiAfter { call, got: None }),
    }
}

/// Where the player's call did not happen: innocent if another player
/// acted first.
fn interrupted_exec(a: &Event, pid: u8) -> (r: Result<bool, CompareError>)
    ensures
        match interrupted(*a, pid) {
            Ok(b) => r == Ok::<bool, CompareError>(b),
            Err(f) => r matches Err(x) && same_compare_error(x, f),
        },
{
    match a.actor() {
        Some(x) => Ok(x != pid),
        None => Err(CompareError::UnexpectedEvent(a.duplicate())),
    }
}

/// Whether the actual action equals the expected one or is innocent.
pub fn compare_action(actual_action: &[Event], expected_action: &[Event], player_id: u8) -> (r: Result<
    bool,
    CompareError,
>)
    ensures
        match compare_outcome(actual_action@, expected_action@, player_id) {
            Ok(b) => r == Ok::<bool, CompareError>(b),
            Err(f) => r matches Err(x) && same_compare_error(x, f),
        },
{
    let mut i: usize = 0;
    let mut same = true;
    while i < expected_action.len() && i < actual_action.len()
        invariant
            same == forall|j: int|
                0 <= j < i && j < expected_action@.len() && j < actual_action@.len()
                    ==> same_event(#[trigger] expected_action@[j], actual_action@[j]),
        decreases expected_action@.len() - i,
    {
        if !expected_action[i].same_as(&actual_action[i]) {
            same = false;
        }
        i = i + 1;
    }
    if same {
        return Ok(true);
    }
    let a = &actual_action[0];
    match &expected_action[0] {
        Event::Dahai { pai, .. } => Ok(
            match a {
                Event::Dahai { pai: ap, .. } => *ap == *pai,
                _ => false,
            },
        ),
        Event::Ankan { consumed, .. } => Ok(
            match a {
                Event::Ankan { consumed: ac, .. } => tile_set_eq(
                    ac.as_slice(),
                    consumed.as_slice(),
                    false,
                ),
                _ => false,
            },
        ),
        Event::Kakan { pai, .. } => Ok(
            match a {
                Event::Kakan { pai: ap, .. } => *ap == *pai,
                _ => false,
            },
        ),
        Event::Reach { .. } => match a {
            Event::Reach { .. } => after_call_exec(actual_action, expected_action, CallKind::Reach),
            _ => Ok(false),
        },
        Event::Chi { consumed, .. } => match a {
            Event::Tsumo { .. } => Ok(false),
            Event::Chi { consumed: ac, .. } => {
                if tile_set_eq(ac.as_slice(), consumed.as_slice(), false) {
                    after_call_exec(actual_action, expected_action, CallKind::Chi)
                } else {
                    interrupted_exec(a, player_id)
                }
            },
            _ => interrupted_exec(a, player_id),
        },
        Event::Pon { consumed, .. } => match a {
            Event::Tsumo { .. } => Ok(false),
            Event::Pon { consumed: ac, .. } => {
                if tile_set_eq(ac.as_slice(), consumed.as_slice(), false) {
                    after_call_exec(actual_action, expected_action, CallKind::Pon)
                } else {
                    interrupted_exec(a, player_id)
                }
            },
            _ => interrupted_exec(a, player_id),
        },
        Event::Daiminkan { .. } => match a {
            Event::Tsumo { .. } => Ok(false),
            Event::Daiminkan { .. } => Ok(true),
            _ => interrupted_exec(a, player_id),
        },
        Event::Hora { .. } => {
            let mut k: usize = 0;
            let mut found = false;
            while k < 3 && k < actual_action.len()
                invariant
                    k <= 3,
                    found == exists|j: int|
                        0 <= j < k && j < actual_action@.len() && #[trigger] is_hora_of(
                            actual_action@[j],
                            player_id,
                        ),
                decreases 3 - k,
            {
                if let Event::Hora { actor, .. } = &actual_action[k] {
                    if *actor == player_id {
                        found = true;
                        assert(is_hora_of(actual_action@[k as int], player_id));
                    }
                }
                k = k + 1;
            }
            Ok(found)
        },
        Event::NoAction => match a {
            Event::Tsumo { .. } => Ok(true),
            Event::Ryukyoku { .. } => Ok(true),
            _ => interrupted_exec(a, player_id),
        },
        Event::Ryukyoku { .. } => Ok(
            match a {
                Event::Ryukyoku { .. } => true,
                _ => false,
            },
        ),
        _ => Err(CompareError::UnexpectedEvent(a.duplicate())),
    }
}

/// A chi of this label on `pai` uses tiles of the same suit without going
/// past `1` or `9`: the called tile is lowest (number at most 7), middle
/// (2 to 8) or highest (at least 3).
pub open spec fn chi_fits(pai: Pai, label: usize) -> bool {
    let id = pai.spec_deaka().tile_id();
    let n = id % 9;
    &&& id < 27
    &&& (label == 38 ==> n <= 6)
    &&& (label == 39 ==> 1 <= n <= 7)
    &&& (label == 40 ==> n >= 2)
}

/// The engine's number of an action made from a number is that number:
/// every action that `to_event` makes (a chi only where its tiles fit in
/// the suit) is numbered back by `to_label` as it was asked for.
pub proof fn law_label_roundtrip(
    state: State,
    label: usize,
    target: u8,
    last: Option<Pai>,
    at_kan_select: bool,
)
    requires
        event_of(state, label, target, last, at_kan_select) is Ok,
        !at_kan_select && 38 <= label <= 40 ==> (last matches Some(p) && chi_fits(p, label)),
    ensures
        label_of(event_of(state, label, target, last, at_kan_select)->Ok_0, at_kan_select) == Some(
            label,
        ),
{
    if at_kan_select {
        let t = Pai::tile_from_id(label as int);
        assert(t.spec_deaka().tile_id() == label) by {
            assert(label < 34);
        }
    } else if label <= 36 {
        assert(Pai::tile_from_id(label as int).tile_id() == label);
    } else if 38 <= label <= 40 {
        let p = last->Some_0;
        assert(chi_label_of_pai(p, label)) by {
            lemma_chi_label(p, label);
        }
    }
}

/// The position a chi's number names for the called tile among the
/// three, as the tiles `to_event` picks for it say.
spec fn chi_label_of_pai(p: Pai, label: usize) -> bool {
    let x = if label == 38 {
        p.spec_next()
    } else if label == 39 {
        p.spec_prev()
    } else {
        p.spec_prev().spec_prev()
    };
    let y = if label == 38 {
        p.spec_next().spec_next()
    } else if label == 39 {
        p.spec_next()
    } else {
        p.spec_prev()
    };
    chi_label(p, plain_pair(x, y)) == label
}

/// The chi tiles of a tile that fits give back the chi's number.
proof fn lemma_chi_label(p: Pai, label: usize)
    requires
        38 <= label <= 40,
        chi_fits(p, label),
    ensures
        chi_label_of_pai(p, label),
{
    match p {
        Pai::Unknown => {},
        Pai::Man1 => {},
        Pai::Man2 => {},
        Pai::Man3 => {},
        Pai::Man4 => {},
        Pai::Man5 => {},
        Pai::Man6 => {},
        Pai::Man7 => {},
        Pai::Man8 => {},
        Pai::Man9 => {},
        Pai::Pin1 => {},
        Pai::Pin2 => {},
        Pai::Pin3 => {},
        Pai::Pin4 => {},
        Pai::Pin5 => {},
        Pai::Pin6 => {},
        Pai::Pin7 => {},
        Pai::Pin8 => {},
        Pai::Pin9 => {},
        Pai::Sou1 => {},
        Pai::Sou2 => {},
        Pai::Sou3 => {},
        Pai::Sou4 => {},
        Pai::Sou5 => {},
        Pai::Sou6 => {},
        Pai::Sou7 => {},
        Pai::Sou8 => {},
        Pai::Sou9 => {},
        Pai::AkaMan5 => {},
        Pai::AkaPin5 => {},
        Pai::AkaSou5 => {},
        _ => {},
    }
}

/// Comparing tile lists is an equivalence: every list matches itself, the
/// order of the two lists does not matter, and two lists that match a
/// third match each other.
pub proof fn law_tile_set_eq_equivalence(a: Seq<Pai>, b: Seq<Pai>, c: Seq<Pai>, ignore_aka: bool)
    ensures
        same_tile_set(a, a, ignore_aka),
        same_tile_set(a, b, ignore_aka) == same_tile_set(b, a, ignore_aka),
        same_tile_set(a, b, ignore_aka) && same_tile_set(b, c, ignore_aka) ==> same_tile_set(
            a,
            c,
            ignore_aka,
        ),
{
}

/// An action always agrees with itself: compared with itself it is found
/// equal, strictly and otherwise.
pub proof fn law_compare_reflexive(action: Seq<Event>, player_id: u8)
    requires
        action.len() > 0,
    ensures
        compare_outcome(action, action, player_id) == Ok::<bool, CompareError>(true),
        actions_match(action, action),
{
    assert(all_same(action, action));
}


/// How many of the tiles are `t` once red fives count as plain fives.
pub open spec fn plain_count(s: Seq<Pai>, t: Pai) -> nat
    decreases s.len(),
{
    if s.len() == 0 {
        0
    } else {
        plain_count(s.drop_last(), t) + if s.last().spec_deaka() == t {
            1nat
        } else {
            0nat
        }
    }
}

/// Two tile lists hold each tile as many times, red fives counted as
/// plain fives.
pub open spec fn same_plain_tiles(l: Seq<Pai>, r: Seq<Pai>) -> bool {
    forall|t: Pai| plain_count(l, t) == plain_count(r, t)
}

/// Counting plain tiles counts the plain list.
proof fn lemma_plain_count(s: Seq<Pai>, t: Pai)
    ensures
        plain_count(s, t) == normalized(s, true).to_multiset().count(t),
    decreases s.len(),
{
    if s.len() > 0 {
        lemma_plain_count(s.drop_last(), t);
        assert(normalized(s, true) =~= normalized(s.drop_last(), true).push(s.last().spec_deaka()));
    }
}

/// Matching tile lists with red fives made plain is holding each plain
/// tile as many times.
proof fn lemma_same_plain(l: Seq<Pai>, r: Seq<Pai>)
    ensures
        same_tile_set(l, r, true) <==> same_plain_tiles(l, r),
{
    assert forall|t: Pai| #[trigger] plain_count(l, t) == normalized(l, true).to_multiset().count(t)
        && plain_count(r, t) == normalized(r, true).to_multiset().count(t) by {
        lemma_plain_count(l, t);
        lemma_plain_count(r, t);
    }
    if same_plain_tiles(l, r) {
        assert(normalized(l, true).to_multiset() =~= normalized(r, true).to_multiset()) by {
            assert forall|t: Pai| normalized(l, true).to_multiset().count(t) == #[trigger] normalized(
                r,
                true,
            ).to_multiset().count(t) by {
                assert(plain_count(l, t) == plain_count(r, t));
            }
        }
    }
}

/// When the player's action agrees with the engine's, red fives set aside:
/// two discards of the same tile; two calls of one kind (chi, pon, open or
/// closed kan) that take the same tiles from the hand, each as many times,
/// red fives counted as plain fives; two added kans of the same tile; and
/// riichi, win, draw or pass against the same. Actions of different kinds
/// never agree.
pub proof fn law_agreement_ignoring_aka(a: Event, b: Event)
    ensures
        a matches Event::Chi { consumed: l, .. } ==> (b matches Event::Chi { consumed: r, .. } ==> (
        agree_ignoring_aka(a, b) <==> same_plain_tiles(l@, r@))),
        a matches Event::Pon { consumed: l, .. } ==> (b matches Event::Pon { consumed: r, .. } ==> (
        agree_ignoring_aka(a, b) <==> same_plain_tiles(l@, r@))),
        a matches Event::Daiminkan { consumed: l, .. } ==> (b matches Event::Daiminkan {
            consumed: r,
            ..
        } ==> (agree_ignoring_aka(a, b) <==> same_plain_tiles(l@, r@))),
        a matches Event::Ankan { consumed: l, .. } ==> (b matches Event::Ankan { consumed: r, .. } ==> (
        agree_ignoring_aka(a, b) <==> same_plain_tiles(l@, r@))),
        a matches Event::Dahai { pai: l, .. } ==> (b matches Event::Dahai { pai: r, .. } ==> (
        agree_ignoring_aka(a, b) <==> l == r)),
        a matches Event::Kakan { pai: l, .. } ==> (b matches Event::Kakan { pai: r, .. } ==> (
        agree_ignoring_aka(a, b) <==> l == r)),
        (a is Reach && b is Reach) || (a is Hora && b is Hora) || (a is Ryukyoku && b is Ryukyoku) || (
        a is NoAction && b is NoAction) ==> agree_ignoring_aka(a, b),
        event_kind(a) != event_kind(b) ==> !agree_ignoring_aka(a, b),
{
    match (a, b) {
        (Event::Chi { consumed: l, .. }, Event::Chi { consumed: r, .. }) => lemma_same_plain(l@, r@),
        (Event::Pon { consumed: l, .. }, Event::Pon { consumed: r, .. }) => lemma_same_plain(l@, r@),
        (Event::Daiminkan { consumed: l, .. }, Event::Daiminkan { consumed: r, .. }) => lemma_same_plain(
            l@,
            r@,
        ),
        (Event::Ankan { consumed: l, .. }, Event::Ankan { consumed: r, .. }) => lemma_same_plain(
            l@,
            r@,
        ),
        _ => {},
    }
}

/// The kind of an event, by its variant.
pub open spec fn event_kind(e: Event) -> int {
    match e {
        Event::NoAction => 0,
        Event::StartGame { .. } => 1,
        Event::StartKyoku { .. } => 2,
        Event::Tsumo { .. } => 3,
        Event::Dahai { .. } => 4,
        Event::Chi { .. } => 5,
        Event::Pon { .. } => 6,
        Event::Daiminkan { .. } => 7,
        Event::Kakan { .. } => 8,
        Event::Ankan { .. } => 9,
        Event::Dora { .. } => 10,
        Event::Reach { .. } => 11,
        Event::ReachAccepted { .. } => 12,
        Event::Hora { .. } => 13,
        Event::Ryukyoku { .. } => 14,
        Event::EndKyoku => 15,
        Event::EndGame => 16,
    }
}


/// After the same call, what decides is the discard that follows: where the
/// player makes the chi, pon or riichi that the engine advises (a chi or pon
/// with the same tiles from the hand, each as many times) and each action
/// goes on with a discard, the two agree exactly when the discards are of
/// the same tile.
pub proof fn law_call_then_discard(actual: Seq<Event>, expected: Seq<Event>, pid: u8)
    requires
        actual.len() >= 2,
        expected.len() >= 2,
        (actual[0] is Pon && expected[0] is Pon && actual[0]->Pon_consumed@.to_multiset()
            == expected[0]->Pon_consumed@.to_multiset()) || (actual[0] is Chi && expected[0] is Chi
            && actual[0]->Chi_consumed@.to_multiset() == expected[0]->Chi_consumed@.to_multiset())
            || (actual[0] is Reach && expected[0] is Reach),
        actual[1] is Dahai,
        expected[1] is Dahai,
    ensures
        compare_outcome(actual, expected, pid) == Ok::<bool, CompareError>(
            actual[1]->Dahai_pai == expected[1]->Dahai_pai,
        ),
{
    if all_same(actual, expected) {
        assert(same_event(expected[1], actual[1]));
    }
    assert(event_at(actual, 1) == Some(actual[1]));
    assert(event_at(expected, 1) == Some(expected[1]));
}


/// How the player's action compares with the engine's by its first event:
/// an advised discard agrees with a discard of the same tile only; an
/// advised added kan with an added kan of the same tile only; an advised
/// closed kan with a closed kan of the same tiles only; an advised open kan
/// with an open kan; and where the player did not make the advised chi, pon
/// or open kan but another player acted first (a call or a win), the
/// player is innocent, while his own other action or his next draw is not.
pub proof fn law_compare_first_action(actual: Seq<Event>, expected: Seq<Event>, pid: u8)
    requires
        actual.len() >= 1,
        expected.len() >= 1,
    ensures
        expected[0] is Dahai ==> compare_outcome(actual, expected, pid) == Ok::<bool, CompareError>(
            actual[0] is Dahai && actual[0]->Dahai_pai == expected[0]->Dahai_pai,
        ),
        expected[0] is Kakan ==> compare_outcome(actual, expected, pid) == Ok::<bool, CompareError>(
            actual[0] is Kakan && actual[0]->Kakan_pai == expected[0]->Kakan_pai,
        ),
        expected[0] is Ankan ==> compare_outcome(actual, expected, pid) == Ok::<bool, CompareError>(
            actual[0] is Ankan && actual[0]->Ankan_consumed@.to_multiset()
                == expected[0]->Ankan_consumed@.to_multiset(),
        ),
        expected[0] is Daiminkan && actual[0] is Daiminkan ==> compare_outcome(actual, expected, pid)
            == Ok::<bool, CompareError>(true),
        (expected[0] is Chi || expected[0] is Pon || expected[0] is Daiminkan) && actual[0] is Tsumo
            ==> compare_outcome(actual, expected, pid) == Ok::<bool, CompareError>(false),
        (expected[0] is Chi || expected[0] is Pon || expected[0] is Daiminkan) && event_kind(actual[0])
            != event_kind(expected[0]) && !(actual[0] is Tsumo) && actual[0].spec_actor() is Some
            ==> compare_outcome(actual, expected, pid) == Ok::<bool, CompareError>(
            actual[0].spec_actor()->Some_0 != pid,
        ),
{
    if all_same(actual, expected) {
        assert(same_event(expected[0], actual[0]));
    }
    if expected[0] is Ankan && actual[0] is Ankan {
        assert(normalized(actual[0]->Ankan_consumed@, false) == actual[0]->Ankan_consumed@);
        assert(normalized(expected[0]->Ankan_consumed@, false) == expected[0]->Ankan_consumed@);
    }
}

} // verus!
