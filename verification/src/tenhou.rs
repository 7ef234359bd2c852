use vstd::prelude::*;

use crate::kyoku_filter::KyokuFilter;
use crate::num::chars_of;
use crate::pai::Pai;
use crate::tehai::vec_copy;

verus! {

/// An item of the dealt hand, draw or discard lists of a tenhou.net/6 log.
#[derive(Debug)]
pub enum ActionItem {
    /// A tile.
    Pai(Pai),
    /// A discard of the tile just drawn (written as `60`).
    Tsumogiri(u8),
    /// A call or declaration, such as `"c275226"` or `"r35"`.
    Naki(String),
}

/// The kyoku number (0-based, E1 is 0), honba and riichi sticks of a kyoku.
#[derive(Debug, Clone, Copy, PartialEq, Eq, Structural)]
pub struct KyokuMeta {
    pub kyoku_num: u8,
    pub honba: u8,
    pub kyotaku: u8,
}

/// The kyoku number, honba and riichi sticks of a kyoku, under their
/// shorter name.
pub type Meta = KyokuMeta;

/// The length of a game.
#[derive(Debug, Clone, Copy, PartialEq, Eq, Structural)]
pub enum GameLength {
    /// East and South rounds.
    Hanchan,
    /// East round only.
    Tonpuu,
}

impl GameLength {
    /// The number of the first kyoku of the last wind (0 or 4).
    pub open spec fn spec_as_u8(self) -> u8 {
        match self {
            GameLength::Hanchan => 0,
            GameLength::Tonpuu => 4,
        }
    }

    /// The number of the game length: 0 for hanchan, 4 for tonpuu.
    pub fn as_u8(self) -> (r: u8)
        ensures
            r == self.spec_as_u8(),
    {
        match self {
            GameLength::Hanchan => 0,
            GameLength::Tonpuu => 4,
        }
    }
}

/// A win: who won, from whom, and the score changes.
#[derive(Debug, Clone, Copy)]
pub struct HoraDetail {
    pub who: u8,
    pub target: u8,
    pub score_deltas: [i32; 4],
}

/// How a kyoku ended.
#[derive(Debug)]
pub enum EndStatus {
    /// One or more wins.
    Hora { details: Vec<HoraDetail> },
    /// An exhaustive or abortive draw.
    Ryukyoku { score_deltas: [i32; 4] },
}

/// A player's dealt hand, draws and discards in a kyoku.
#[derive(Debug)]
pub struct ActionTable {
    pub haipai: [Pai; 13],
    pub takes: Vec<ActionItem>,
    pub discards: Vec<ActionItem>,
}

/// A kyoku of a tenhou.net/6 log.
#[derive(Debug)]
pub struct Kyoku {
    pub meta: KyokuMeta,
    pub scoreboard: [i32; 4],
    pub dora_indicators: Vec<Pai>,
    pub ura_indicators: Vec<Pai>,
    pub action_tables: [ActionTable; 4],
    pub end_status: EndStatus,
}

/// A tenhou.net/6 log of a four-player game.
#[derive(Debug)]
pub struct Log {
    pub names: [String; 4],
    pub game_length: GameLength,
    pub has_aka: bool,
    pub kyokus: Vec<Kyoku>,
}

/// An item of the result list of a kyoku in a tenhou.net/6 log.
#[derive(Debug)]
pub enum ResultItem {
    /// The kind of result, such as `"和了"` for a win.
    Status(String),
    /// The score changes.
    ScoreDeltas([i32; 4]),
    /// The details of a win; each entry is the number it holds (a number
    /// that is not a `u64` reads as 0), or `None` where it is not a number.
    HoraDetail(Vec<Option<u64>>),
}

/// The rules of a tenhou.net/6 log.
#[derive(Debug)]
pub struct Rule {
    pub disp: String,
    pub aka: u8,
    pub aka51: u8,
    pub aka52: u8,
    pub aka53: u8,
}

/// A kyoku as a tenhou.net/6 log writes it.
#[derive(Debug)]
pub struct RawKyoku {
    pub meta: KyokuMeta,
    pub scoreboard: [i32; 4],
    pub dora_indicators: Vec<Pai>,
    pub ura_indicators: Vec<Pai>,
    pub haipai_0: [Pai; 13],
    pub takes_0: Vec<ActionItem>,
    pub discards_0: Vec<ActionItem>,
    pub haipai_1: [Pai; 13],
    pub takes_1: Vec<ActionItem>,
    pub discards_1: Vec<ActionItem>,
    pub haipai_2: [Pai; 13],
    pub takes_2: Vec<ActionItem>,
    pub discards_2: Vec<ActionItem>,
    pub haipai_3: [Pai; 13],
    pub takes_3: Vec<ActionItem>,
    pub discards_3: Vec<ActionItem>,
    pub results: Vec<ResultItem>,
}

/// A tenhou.net/6 log as it is written: the kyokus, the player names and the
/// rules.
#[derive(Debug)]
pub struct RawLog {
    pub logs: Vec<RawKyoku>,
    pub names: [String; 4],
    pub rule: Rule,
}

/// One kyoku of a raw log, which the rest of the log (names and rules)
/// goes with.
#[derive(Debug)]
pub struct RawPartialLog<'a> {
    pub parent: &'a RawLog,
    /// The position of the kyoku in the parent's list.
    pub index: usize,
}

/// Why a tenhou.net/6 log is not one that can be converted.
#[derive(Debug, Clone, Copy, PartialEq, Eq, Structural)]
pub enum ParseError {
    /// The rules name a three-player game.
    NotFourPlayer,
    /// The details of a win do not name the winner and the loser.
    InvalidHoraDetail,
}

/// The log holds what the raw log says: its names, the game length and red
/// fives that its rules give, and each of its kyokus read in order.
pub open spec fn log_from_raw(log: Log, raw: RawLog) -> bool {
    &&& log.names == raw.names
    &&& log.game_length == if is_east_only(raw.rule.disp@) {
        GameLength::Tonpuu
    } else {
        GameLength::Hanchan
    }
    &&& log.has_aka == (raw.rule.aka + raw.rule.aka51 + raw.rule.aka52 + raw.rule.aka53 > 0)
    &&& log.kyokus@.len() == raw.logs@.len()
    &&& forall|i: int|
        0 <= i < raw.logs@.len() ==> kyoku_from_raw(#[trigger] log.kyokus@[i], raw.logs@[i])
}

/// Whether `needle` occurs in `hay`.
pub open spec fn contains_text(hay: Seq<char>, needle: Seq<char>) -> bool {
    exists|i: int|
        0 <= i && i + needle.len() <= hay.len() && #[trigger] hay.subrange(i, i + needle.len())
            == needle
}

/// The rules name a three-player game.
pub open spec fn is_three_player(disp: Seq<char>) -> bool {
    contains_text(disp, seq!['三']) || contains_text(disp, seq!['3', '-', 'P', 'l', 'a', 'y', 'e', 'r'])
}

/// The rules name an East-only game.
pub open spec fn is_east_only(disp: Seq<char>) -> bool {
    contains_text(disp, seq!['東']) || contains_text(disp, seq!['E', 'a', 's', 't'])
}

/// The winner or loser that an entry of a win's details names: the number,
/// cut to its lowest eight bits.
pub open spec fn detail_player(v: Option<u64>) -> u8 {
    match v {
        Some(n) => (n % 256) as u8,
        None => 0,
    }
}

/// The details of a win name the winner and the loser: the first two entries
/// are there and are numbers.
pub open spec fn detail_ok(d: Seq<Option<u64>>) -> bool {
    d.len() >= 2 && d[0] is Some && d[1] is Some
}

/// The wins that the results `rs[i..]` list, two items to a win (score
/// changes, then the details); a pair of another shape is skipped.
pub open spec fn hora_details(rs: Seq<ResultItem>, i: int) -> Option<Seq<HoraDetail>>
    decreases rs.len() - i,
{
    if i < 0 || i + 2 > rs.len() {
        Some(Seq::empty())
    } else {
        let rest = hora_details(rs, i + 2);
        match (rs[i], rs[i + 1]) {
            (ResultItem::ScoreDeltas(sd), ResultItem::HoraDetail(d)) => if detail_ok(d@) {
                match rest {
                    Some(tail) => Some(
                        seq![
                            HoraDetail {
                                who: detail_player(d@[0]),
                                target: detail_player(d@[1]),
                                score_deltas: sd,
                            },
                        ] + tail,
                    ),
                    None => None,
                }
            } else {
                None
            },
            _ => rest,
        }
    }
}


/// The results from `i` on are all wins, two items each: the score changes,
/// then the details, whose first two entries (winner and loser) are numbers.
pub open spec fn all_win_pairs(rs: Seq<ResultItem>, i: int) -> bool {
    &&& (rs.len() - i) % 2 == 0
    &&& forall|j: int|
        0 <= j < (rs.len() - i) / 2 ==> {
            &&& (#[trigger] rs[i + 2 * j]) is ScoreDeltas
            &&& rs[i + 2 * j + 1] is HoraDetail
            &&& rs[i + 2 * j + 1]->HoraDetail_0@.len() >= 2
            &&& rs[i + 2 * j + 1]->HoraDetail_0@[0] is Some
            &&& rs[i + 2 * j + 1]->HoraDetail_0@[1] is Some
        }
}

/// Each win of the results is read, in order: where the results from `i`
/// on are all wins, there is one detail per win, with that win's score
/// changes, and its winner and loser cut to their lowest eight bits. A
/// double or triple ron keeps every winner.
pub proof fn law_wins_read_in_order(rs: Seq<ResultItem>, i: int)
    requires
        0 <= i <= rs.len(),
        all_win_pairs(rs, i),
    ensures
        hora_details(rs, i) is Some,
        hora_details(rs, i)->Some_0.len() == (rs.len() - i) / 2,
        forall|j: int|
            0 <= j < (rs.len() - i) / 2 ==> {
                let d = #[trigger] hora_details(rs, i)->Some_0[j];
                &&& d.score_deltas == rs[i + 2 * j]->ScoreDeltas_0
                &&& d.who as int == rs[i + 2 * j + 1]->HoraDetail_0@[0]->Some_0 % 256
                &&& d.target as int == rs[i + 2 * j + 1]->HoraDetail_0@[1]->Some_0 % 256
            },
    decreases rs.len() - i,
{
    if i + 2 <= rs.len() {
        assert(all_win_pairs(rs, i + 2)) by {
            assert forall|j: int| 0 <= j < (rs.len() - (i + 2)) / 2 implies {
                &&& (#[trigger] rs[(i + 2) + 2 * j]) is ScoreDeltas
                &&& rs[(i + 2) + 2 * j + 1] is HoraDetail
                &&& rs[(i + 2) + 2 * j + 1]->HoraDetail_0@.len() >= 2
                &&& rs[(i + 2) + 2 * j + 1]->HoraDetail_0@[0] is Some
                &&& rs[(i + 2) + 2 * j + 1]->HoraDetail_0@[1] is Some
            } by {
                assert(i + 2 * (j + 1) == (i + 2) + 2 * j);
                assert(rs[i + 2 * (j + 1)] is ScoreDeltas);
            }
        }
        law_wins_read_in_order(rs, i + 2);
        assert(rs[i + 2 * 0] is ScoreDeltas);
        let tail = hora_details(rs, i + 2)->Some_0;
        let d = hora_details(rs, i)->Some_0;
        assert forall|j: int| 0 <= j < (rs.len() - i) / 2 implies {
            let e = #[trigger] hora_details(rs, i)->Some_0[j];
            &&& e.score_deltas == rs[i + 2 * j]->ScoreDeltas_0
            &&& e.who as int == rs[i + 2 * j + 1]->HoraDetail_0@[0]->Some_0 % 256
            &&& e.target as int == rs[i + 2 * j + 1]->HoraDetail_0@[1]->Some_0 % 256
        } by {
            if j > 0 {
                assert(d[j] == tail[j - 1]);
                assert(i + 2 * j == (i + 2) + 2 * (j - 1));
            }
        }
    }
}


/// A kyoku that ends in wins keeps every winner of its results, in order:
/// one detail per win, with its score changes, winner and loser.
pub proof fn law_kyoku_keeps_every_winner(k: Kyoku, r: RawKyoku)
    requires
        kyoku_from_raw(k, r),
        is_hora_status(r.results@),
        all_win_pairs(r.results@, 1),
    ensures
        k.end_status is Hora,
        k.end_status->details@.len() == (r.results@.len() - 1) / 2,
        forall|j: int|
            0 <= j < (r.results@.len() - 1) / 2 ==> {
                let d = #[trigger] k.end_status->details@[j];
                &&& d.score_deltas == r.results@[1 + 2 * j]->ScoreDeltas_0
                &&& d.who as int == r.results@[1 + 2 * j + 1]->HoraDetail_0@[0]->Some_0 % 256
                &&& d.target as int == r.results@[1 + 2 * j + 1]->HoraDetail_0@[1]->Some_0 % 256
            },
{
    law_wins_read_in_order(r.results@, 1);
    assert forall|j: int| 0 <= j < (r.results@.len() - 1) / 2 implies {
        let d = #[trigger] k.end_status->details@[j];
        &&& d.score_deltas == r.results@[1 + 2 * j]->ScoreDeltas_0
        &&& d.who as int == r.results@[1 + 2 * j + 1]->HoraDetail_0@[0]->Some_0 % 256
        &&& d.target as int == r.results@[1 + 2 * j + 1]->HoraDetail_0@[1]->Some_0 % 256
    } by {
        assert(k.end_status->details@[j] == hora_details(r.results@, 1)->Some_0[j]);
    }
}


/// A kyoku whose results do not open with a win ends in a draw, with the
/// score changes that follow its status where they are there, and no
/// changes otherwise.
pub proof fn law_kyoku_draw(k: Kyoku, r: RawKyoku)
    requires
        kyoku_from_raw(k, r),
        !(r.results@.len() > 0 && r.results@[0] is Status && r.results@[0]->Status_0@ == seq!['和', '了']),
    ensures
        k.end_status is Ryukyoku,
        r.results@.len() > 1 && r.results@[0] is Status && r.results@[1] is ScoreDeltas
            ==> k.end_status->Ryukyoku_score_deltas == r.results@[1]->ScoreDeltas_0,
        !(r.results@.len() > 1 && r.results@[0] is Status && r.results@[1] is ScoreDeltas)
            ==> k.end_status->Ryukyoku_score_deltas == [0i32, 0, 0, 0],
{
}

/// The results start with the status of a win.
pub open spec fn is_hora_status(rs: Seq<ResultItem>) -> bool {
    &&& rs.len() > 0
    &&& rs[0] matches ResultItem::Status(t)
    &&& t@ == seq!['和', '了']
}

/// The score changes of a draw: the second result item where the first is a
/// status and the second is score changes, zeros otherwise.
pub open spec fn draw_deltas(rs: Seq<ResultItem>) -> [i32; 4] {
    if rs.len() > 1 && rs[0] is Status && rs[1] is ScoreDeltas {
        rs[1]->ScoreDeltas_0
    } else {
        [0i32, 0, 0, 0]
    }
}

/// The results of a kyoku hold an invalid win: they start with a win whose
/// details are missing the winner or the loser.
pub open spec fn results_invalid(rs: Seq<ResultItem>) -> bool {
    is_hora_status(rs) && hora_details(rs, 1) is None
}

/// The end of a kyoku that its results give.
pub open spec fn end_status_matches(e: EndStatus, rs: Seq<ResultItem>) -> bool {
    if is_hora_status(rs) {
        &&& e matches EndStatus::Hora { details }
        &&& Some(details@) == hora_details(rs, 1)
    } else {
        &&& e matches EndStatus::Ryukyoku { score_deltas }
        &&& score_deltas == draw_deltas(rs)
    }
}

/// The kyoku holds what the raw kyoku says.
pub open spec fn kyoku_from_raw(k: Kyoku, r: RawKyoku) -> bool {
    &&& k.meta == r.meta
    &&& k.scoreboard == r.scoreboard
    &&& k.dora_indicators == r.dora_indicators
    &&& k.ura_indicators == r.ura_indicators
    &&& k.action_tables[0].haipai == r.haipai_0
    &&& k.action_tables[0].takes == r.takes_0
    &&& k.action_tables[0].discards == r.discards_0
    &&& k.action_tables[1].haipai == r.haipai_1
    &&& k.action_tables[1].takes == r.takes_1
    &&& k.action_tables[1].discards == r.discards_1
    &&& k.action_tables[2].haipai == r.haipai_2
    &&& k.action_tables[2].takes == r.takes_2
    &&& k.action_tables[2].discards == r.discards_2
    &&& k.action_tables[3].haipai == r.haipai_3
    &&& k.action_tables[3].takes == r.takes_3
    &&& k.action_tables[3].discards == r.discards_3
    &&& end_status_matches(k.end_status, r.results@)
}

/// Whether `needle` occurs in `hay`.
fn find_text(hay: &Vec<char>, needle: &[char]) -> (r: bool)
    ensures
        r == contains_text(hay@, needle@),
{
    let n = hay.len();
    let m = needle.len();
    if m > n {
        proof {
            assert forall|i: int| 0 <= i && i + m <= n implies #[trigger] hay@.subrange(i, i + m)
                != needle@ by {}
        }
        return false;
    }
    let mut i: usize = 0;
    while i <= n - m
        invariant
            m <= n,
            i <= n - m + 1,
            n == hay@.len(),
            m == needle@.len(),
            forall|k: int| 0 <= k < i ==> #[trigger] hay@.subrange(k, k + m) != needle@,
        decreases n - i,
    {
        let mut j: usize = 0;
        while j < m && hay[i + j] == needle[j]
            invariant
                i + m <= n,
                n == hay@.len(),
                m == needle@.len(),
                j <= m,
                forall|x: int| 0 <= x < j ==> hay@[i + x] == needle@[x],
            decreases m - j,
        {
            j = j + 1;
        }
        if j == m {
            proof {
                assert(hay@.subrange(i as int, i + m) =~= needle@);
            }
            return true;
        }
        proof {
            assert(hay@.subrange(i as int, i + m)[j as int] != needle@[j as int]);
        }
        i = i + 1;
    }
    proof {
        assert forall|k: int| 0 <= k && k + m <= n implies #[trigger] hay@.subrange(k, k + m)
            != needle@ by {
            assert(k < i);
        }
    }
    false
}

/// Whether a result text is the status of a win.
fn is_hora_text(s: &String) -> (r: bool)
    ensures
        r == (s@ == seq!['和', '了']),
{
    let t = s.as_str();
    if t.unicode_len() != 2 {
        return false;
    }
    let r = t.get_char(0) == '和' && t.get_char(1) == '了';
    proof {
        if r {
            assert(s@ =~= seq!['和', '了']);
        }
    }
    r
}

/// The winner or loser that an entry of a win's details names.
fn detail_player_exec(v: Option<u64>) -> (r: u8)
    ensures
        r == detail_player(v),
{
    match v {
        Some(n) => (n % 256) as u8,
        None => 0,
    }
}

/// The wins that the results list, from position `i` on.
fn hora_details_exec(rs: &Vec<ResultItem>, i: usize) -> (r: Option<Vec<HoraDetail>>)
    ensures
        match r {
            Some(v) => hora_details(rs@, i as int) == Some(v@),
            None => hora_details(rs@, i as int) is None,
        },
    decreases rs@.len() - i,
{
    if i > rs.len() || rs.len() - i < 2 {
        return Some(Vec::new());
    }
    let rest = hora_details_exec(rs, i + 2);
    match (&rs[i], &rs[i + 1]) {
        (ResultItem::ScoreDeltas(sd), ResultItem::HoraDetail(d)) => {
            if d.len() >= 2 && d[0].is_some() && d[1].is_some() {
                match rest {
                    Some(tail) => {
                        let mut v: Vec<HoraDetail> = Vec::new();
                        v.push(
                            HoraDetail {
                                who: detail_player_exec(d[0]),
                                target: detail_player_exec(d[1]),
                                score_deltas: *sd,
                            },
                        );
                        let mut tail = tail;
                        let ghost t = tail@;
                        v.append(&mut tail);
                        proof {
                            assert(v@ =~= seq![
                                HoraDetail {
                                    who: detail_player(d@[0]),
                                    target: detail_player(d@[1]),
                                    score_deltas: *sd,
                                },
                            ] + t);
                        }
                        Some(v)
                    },
                    None => None,
                }
            } else {
                None
            }
        },
        _ => rest,
    }
}

impl RawLog {
    /// The names of the four players.
    pub fn get_names(&self) -> (r: &[String; 4])
        ensures
            *r == self.names,
    {
        &self.names
    }

    /// Replaces the names of the players by `Aさん`, `Bさん`, `Cさん` and
    /// `Dさん`, in seat order; the rest stays.
    pub fn hide_names(&mut self)
        ensures
            final(self).names[0]@ == seq!['A', 'さ', 'ん'],
            final(self).names[1]@ == seq!['B', 'さ', 'ん'],
            final(self).names[2]@ == seq!['C', 'さ', 'ん'],
            final(self).names[3]@ == seq!['D', 'さ', 'ん'],
            final(self).logs == old(self).logs,
            final(self).rule == old(self).rule,
    {
        let a = "Aさん".to_owned();
        let b = "Bさん".to_owned();
        let c = "Cさん".to_owned();
        let d = "Dさん".to_owned();
        proof {
            reveal_strlit("Aさん");
            reveal_strlit("Bさん");
            reveal_strlit("Cさん");
            reveal_strlit("Dさん");
        }
        self.names = [a, b, c, d];
    }

    /// Keeps only the kyokus that the filter admits, in their order.
    pub fn filter_kyokus(&mut self, kyoku_filter: &KyokuFilter)
        ensures
            final(self).logs@ == old(self).logs@.filter(
                |l: RawKyoku| kyoku_filter.admits(l.meta.kyoku_num, l.meta.honba),
            ),
            final(self).names == old(self).names,
            final(self).rule == old(self).rule,
    {
        let ghost pred = |l: RawKyoku| kyoku_filter.admits(l.meta.kyoku_num, l.meta.honba);
        let mut rest: Vec<RawKyoku> = Vec::new();
        std::mem::swap(&mut rest, &mut self.logs);
        let ghost all = rest@;
        let total = rest.len();
        let mut kept: Vec<RawKyoku> = Vec::new();
        let mut k: usize = 0;
        while rest.len() > 0
            invariant
                all.len() == total,
                k + rest@.len() == all.len(),
                rest@ == all.skip(k as int),
                kept@ == all.take(k as int).filter(pred),
                pred == (|l: RawKyoku| kyoku_filter.admits(l.meta.kyoku_num, l.meta.honba)),
            decreases rest@.len(),
        {
            let item = rest.remove(0);
            proof {
                assert(item == all[k as int]);
                assert(rest@ =~= all.skip(k + 1));
                assert(all.take(k + 1).drop_last() =~= all.take(k as int));
                reveal_with_fuel(Seq::filter, 1);
            }
            if kyoku_filter.test(item.meta.kyoku_num, item.meta.honba) {
                kept.push(item);
            }
            k = k + 1;
        }
        proof {
            assert(all.take(k as int) =~= all);
        }
        self.logs = kept;
    }

    /// One partial log per kyoku, in order, each with this log as parent.
    pub fn split_by_kyoku(&self) -> (r: Vec<RawPartialLog<'_>>)
        ensures
            r@.len() == self.logs@.len(),
            forall|i: int| 0 <= i < r@.len() ==> (#[trigger] r@[i]).index == i && *r@[i].parent == *self,
    {
        let mut out: Vec<RawPartialLog<'_>> = Vec::new();
        let mut i: usize = 0;
        while i < self.logs.len()
            invariant
                i <= self.logs@.len(),
                out@.len() == i,
                forall|j: int| 0 <= j < i ==> (#[trigger] out@[j]).index == j && *out@[j].parent == *self,
            decreases self.logs@.len() - i,
        {
            out.push(RawPartialLog { parent: self, index: i });
            i = i + 1;
        }
        out
    }

    /// Whether the log holds no kyoku.
    pub fn is_empty(&self) -> (r: bool)
        ensures
            r == (self.logs@.len() == 0),
    {
        self.logs.len() == 0
    }

    /// The number of kyokus in the log.
    pub fn len(&self) -> (r: usize)
        ensures
            r == self.logs@.len(),
    {
        self.logs.len()
    }
}

impl Log {
    /// Keeps only the kyokus that the filter admits, in their order.
    pub fn filter_kyokus(&mut self, kyoku_filter: &KyokuFilter)
        ensures
            final(self).kyokus@ == old(self).kyokus@.filter(
                |l: Kyoku| kyoku_filter.admits(l.meta.kyoku_num, l.meta.honba),
            ),
            final(self).names == old(self).names,
            final(self).game_length == old(self).game_length,
            final(self).has_aka == old(self).has_aka,
    {
        let ghost pred = |l: Kyoku| kyoku_filter.admits(l.meta.kyoku_num, l.meta.honba);
        let mut rest: Vec<Kyoku> = Vec::new();
        std::mem::swap(&mut rest, &mut self.kyokus);
        let ghost all = rest@;
        let total = rest.len();
        let mut kept: Vec<Kyoku> = Vec::new();
        let mut k: usize = 0;
        while rest.len() > 0
            invariant
                all.len() == total,
                k + rest@.len() == all.len(),
                rest@ == all.skip(k as int),
                kept@ == all.take(k as int).filter(pred),
                pred == (|l: Kyoku| kyoku_filter.admits(l.meta.kyoku_num, l.meta.honba)),
            decreases rest@.len(),
        {
            let item = rest.remove(0);
            proof {
                assert(item == all[k as int]);
                assert(rest@ =~= all.skip(k + 1));
                assert(all.take(k + 1).drop_last() =~= all.take(k as int));
                reveal_with_fuel(Seq::filter, 1);
            }
            if kyoku_filter.test(item.meta.kyoku_num, item.meta.honba) {
                kept.push(item);
            }
            k = k + 1;
        }
        proof {
            assert(all.take(k as int) =~= all);
        }
        self.kyokus = kept;
    }

    /// Reads the overview of a log from its raw form: the rules decide the
    /// game length and whether red fives are used; each kyoku keeps its
    /// tables, and its results decide how it ended.
    pub fn try_from_raw(raw: RawLog) -> (r: Result<Log, ParseError>)
        requires
            raw.rule.aka + raw.rule.aka51 + raw.rule.aka52 + raw.rule.aka53 <= 255,
        ensures
            is_three_player(raw.rule.disp@) ==> r == Err::<Log, ParseError>(
                ParseError::NotFourPlayer,
            ),
            !is_three_player(raw.rule.disp@) ==> match r {
                Ok(log) => {
                    &&& !(exists|i: int|
                        0 <= i < raw.logs@.len() && results_invalid(#[trigger] raw.logs@[i].results@))
                    &&& log_from_raw(log, raw)
                },
                Err(e) => e == ParseError::InvalidHoraDetail && exists|i: int|
                    0 <= i < raw.logs@.len() && results_invalid(#[trigger] raw.logs@[i].results@),
            },
    {
        let RawLog { logs, names, rule } = raw;
        let disp = chars_of(rule.disp.as_str());
        let three = ['三'];
        let three_player = ['3', '-', 'P', 'l', 'a', 'y', 'e', 'r'];
        proof {
            assert(three@ =~= seq!['三']);
            assert(three_player@ =~= seq!['3', '-', 'P', 'l', 'a', 'y', 'e', 'r']);
        }
        if find_text(&disp, three.as_slice()) || find_text(&disp, three_player.as_slice()) {
            return Err(ParseError::NotFourPlayer);
        }
        let east = ['東'];
        let east_word = ['E', 'a', 's', 't'];
        proof {
            assert(east@ =~= seq!['東']);
            assert(east_word@ =~= seq!['E', 'a', 's', 't']);
        }
        let game_length = if find_text(&disp, east.as_slice()) || find_text(
            &disp,
            east_word.as_slice(),
        ) {
            GameLength::Tonpuu
        } else {
            GameLength::Hanchan
        };
        let has_aka = rule.aka + rule.aka51 + rule.aka52 + rule.aka53 > 0;
        let ghost raw_logs = logs@;
        let mut logs = logs;
        let mut kyokus: Vec<Kyoku> = Vec::new();
        let mut k: usize = 0;
        let total = logs.len();
        while logs.len() > 0
            invariant
                raw_logs == raw.logs@,
                !is_three_player(raw.rule.disp@),
                total == raw_logs.len(),
                k + logs@.len() == total,
                logs@ == raw_logs.skip(k as int),
                kyokus@.len() == k,
                forall|i: int| 0 <= i < k ==> kyoku_from_raw(#[trigger] kyokus@[i], raw_logs[i]),
                forall|i: int| 0 <= i < k ==> !results_invalid(#[trigger] raw_logs[i].results@),
            decreases logs@.len(),
        {
            let log = logs.remove(0);
            proof {
                assert(log == raw_logs[k as int]);
                assert(logs@ =~= raw_logs.skip(k + 1));
            }
            let RawKyoku {
                meta,
                scoreboard,
                dora_indicators,
                ura_indicators,
                haipai_0,
                takes_0,
                discards_0,
                haipai_1,
                takes_1,
                discards_1,
                haipai_2,
                takes_2,
                discards_2,
                haipai_3,
                takes_3,
                discards_3,
                results,
            } = log;
            let mut end_status = EndStatus::Ryukyoku { score_deltas: [0, 0, 0, 0] };
            if results.len() > 0 {
                if let ResultItem::Status(status_text) = &results[0] {
                    if is_hora_text(status_text) {
                        match hora_details_exec(&results, 1) {
                            Some(details) => {
                                end_status = EndStatus::Hora { details };
                            },
                            None => {
                                proof {
                                    assert(results_invalid(raw_logs[k as int].results@));
                                }
                                return Err(ParseError::InvalidHoraDetail);
                            },
                        }
                    } else {
                        let score_deltas = if results.len() > 1 {
                            if let ResultItem::ScoreDeltas(dts) = &results[1] {
                                *dts
                            } else {
                                [0, 0, 0, 0]
                            }
                        } else {
                            [0, 0, 0, 0]
                        };
                        end_status = EndStatus::Ryukyoku { score_deltas };
                    }
                }
            }
            let kyoku = Kyoku {
                meta,
                scoreboard,
                dora_indicators,
                ura_indicators,
                action_tables: [
                    ActionTable { haipai: haipai_0, takes: takes_0, discards: discards_0 },
                    ActionTable { haipai: haipai_1, takes: takes_1, discards: discards_1 },
                    ActionTable { haipai: haipai_2, takes: takes_2, discards: discards_2 },
                    ActionTable { haipai: haipai_3, takes: takes_3, discards: discards_3 },
                ],
                end_status,
            };
            kyokus.push(kyoku);
            k = k + 1;
        }
        Ok(Log { names, game_length, has_aka, kyokus })
    }
}

/// Two result items say the same, the details of a win compared by their
/// entries.
pub open spec fn same_result(a: ResultItem, b: ResultItem) -> bool {
    match (a, b) {
        (ResultItem::Status(x), ResultItem::Status(y)) => x@ == y@,
        (ResultItem::ScoreDeltas(x), ResultItem::ScoreDeltas(y)) => x == y,
        (ResultItem::HoraDetail(x), ResultItem::HoraDetail(y)) => x@ == y@,
        _ => false,
    }
}

/// Two raw kyokus say the same: the same numbers, tiles, actions and
/// results.
pub open spec fn same_raw_kyoku(a: RawKyoku, b: RawKyoku) -> bool {
    &&& a.meta == b.meta
    &&& a.scoreboard == b.scoreboard
    &&& a.dora_indicators@ == b.dora_indicators@
    &&& a.ura_indicators@ == b.ura_indicators@
    &&& a.haipai_0 == b.haipai_0
    &&& a.takes_0@ == b.takes_0@
    &&& a.discards_0@ == b.discards_0@
    &&& a.haipai_1 == b.haipai_1
    &&& a.takes_1@ == b.takes_1@
    &&& a.discards_1@ == b.discards_1@
    &&& a.haipai_2 == b.haipai_2
    &&& a.takes_2@ == b.takes_2@
    &&& a.discards_2@ == b.discards_2@
    &&& a.haipai_3 == b.haipai_3
    &&& a.takes_3@ == b.takes_3@
    &&& a.discards_3@ == b.discards_3@
    &&& a.results@.len() == b.results@.len()
    &&& forall|i: int| 0 <= i < a.results@.len() ==> same_result(#[trigger] a.results@[i], b.results@[i])
}

/// A copy of a list of action items.
fn copy_actions(v: &Vec<ActionItem>) -> (r: Vec<ActionItem>)
    ensures
        r@ == v@,
{
    let mut out: Vec<ActionItem> = Vec::new();
    let mut i: usize = 0;
    while i < v.len()
        invariant
            i <= v@.len(),
            out@ == v@.take(i as int),
        decreases v@.len() - i,
    {
        let item = match &v[i] {
            ActionItem::Pai(p) => ActionItem::Pai(*p),
            ActionItem::Tsumogiri(n) => ActionItem::Tsumogiri(*n),
            ActionItem::Naki(s) => ActionItem::Naki(s.clone()),
        };
        out.push(item);
        i = i + 1;
        proof {
            assert(out@ =~= v@.take(i as int));
        }
    }
    proof {
        assert(v@.take(i as int) =~= v@);
    }
    out
}

/// A copy of a list of win details.
fn copy_details(v: &Vec<Option<u64>>) -> (r: Vec<Option<u64>>)
    ensures
        r@ == v@,
{
    let mut out: Vec<Option<u64>> = Vec::new();
    let mut i: usize = 0;
    while i < v.len()
        invariant
            i <= v@.len(),
            out@ == v@.take(i as int),
        decreases v@.len() - i,
    {
        out.push(v[i]);
        i = i + 1;
        proof {
            assert(out@ =~= v@.take(i as int));
        }
    }
    proof {
        assert(v@.take(i as int) =~= v@);
    }
    out
}

/// A copy of a list of result items.
fn copy_results(v: &Vec<ResultItem>) -> (r: Vec<ResultItem>)
    ensures
        r@.len() == v@.len(),
        forall|i: int| 0 <= i < v@.len() ==> same_result(#[trigger] r@[i], v@[i]),
{
    let mut out: Vec<ResultItem> = Vec::new();
    let mut i: usize = 0;
    while i < v.len()
        invariant
            i <= v@.len(),
            out@.len() == i,
            forall|j: int| 0 <= j < i ==> same_result(#[trigger] out@[j], v@[j]),
        decreases v@.len() - i,
    {
        let item = match &v[i] {
            ResultItem::Status(s) => ResultItem::Status(s.clone()),
            ResultItem::ScoreDeltas(d) => ResultItem::ScoreDeltas(*d),
            ResultItem::HoraDetail(d) => ResultItem::HoraDetail(copy_details(d)),
        };
        out.push(item);
        i = i + 1;
    }
    out
}

/// A copy of a raw kyoku.
fn copy_raw_kyoku(k: &RawKyoku) -> (r: RawKyoku)
    ensures
        same_raw_kyoku(r, *k),
{
    let results = copy_results(&k.results);
    let r = RawKyoku {
        meta: k.meta,
        scoreboard: k.scoreboard,
        dora_indicators: vec_copy(&k.dora_indicators),
        ura_indicators: vec_copy(&k.ura_indicators),
        haipai_0: k.haipai_0,
        takes_0: copy_actions(&k.takes_0),
        discards_0: copy_actions(&k.discards_0),
        haipai_1: k.haipai_1,
        takes_1: copy_actions(&k.takes_1),
        discards_1: copy_actions(&k.discards_1),
        haipai_2: k.haipai_2,
        takes_2: copy_actions(&k.takes_2),
        discards_2: copy_actions(&k.discards_2),
        haipai_3: k.haipai_3,
        takes_3: copy_actions(&k.takes_3),
        discards_3: copy_actions(&k.discards_3),
        results,
    };
    proof {
        assert forall|i: int| 0 <= i < r.results@.len() implies same_result(
            #[trigger] r.results@[i],
            k.results@[i],
        ) by {
            assert(same_result(results@[i], k.results@[i]));
        }
    }
    r
}

/// `part` is the log of the `i`-th kyoku of `whole` alone: the same names
/// and rules, and that kyoku as its only one.
pub open spec fn piece_of(part: RawLog, whole: RawLog, i: int) -> bool {
    &&& part.logs@.len() == 1
    &&& same_raw_kyoku(part.logs@[0], whole.logs@[i])
    &&& part.names == whole.names
    &&& part.rule == whole.rule
}

/// Two kyokus hold the same: the same numbers, tiles, actions and end.
pub open spec fn same_kyoku(a: Kyoku, b: Kyoku) -> bool {
    &&& a.meta == b.meta
    &&& a.scoreboard == b.scoreboard
    &&& a.dora_indicators@ == b.dora_indicators@
    &&& a.ura_indicators@ == b.ura_indicators@
    &&& forall|j: int|
        0 <= j < 4 ==> {
            &&& (#[trigger] a.action_tables[j]).haipai == b.action_tables[j].haipai
            &&& a.action_tables[j].takes@ == b.action_tables[j].takes@
            &&& a.action_tables[j].discards@ == b.action_tables[j].discards@
        }
    &&& match (a.end_status, b.end_status) {
        (EndStatus::Hora { details: x }, EndStatus::Hora { details: y }) => x@ == y@,
        (EndStatus::Ryukyoku { score_deltas: x }, EndStatus::Ryukyoku { score_deltas: y }) => x
            == y,
        _ => false,
    }
}


/// Holding the same goes both ways.
pub proof fn lemma_same_kyoku_symmetric(a: Kyoku, b: Kyoku)
    requires
        same_kyoku(a, b),
    ensures
        same_kyoku(b, a),
{
    assert forall|j: int| 0 <= j < 4 implies {
        &&& (#[trigger] b.action_tables[j]).haipai == a.action_tables[j].haipai
        &&& b.action_tables[j].takes@ == a.action_tables[j].takes@
        &&& b.action_tables[j].discards@ == a.action_tables[j].discards@
    } by {
        assert(a.action_tables[j].haipai == b.action_tables[j].haipai);
    }
}

/// Result lists that say the same give the same wins from each position on.
proof fn lemma_same_results_details(a: Seq<ResultItem>, b: Seq<ResultItem>, i: int)
    requires
        a.len() == b.len(),
        forall|k: int| 0 <= k < a.len() ==> same_result(#[trigger] a[k], b[k]),
    ensures
        hora_details(a, i) == hora_details(b, i),
    decreases a.len() - i,
{
    if i < 0 || i + 2 > a.len() {
    } else {
        lemma_same_results_details(a, b, i + 2);
        assert(same_result(a[i], b[i]));
        assert(same_result(a[i + 1], b[i + 1]));
    }
}

/// Reading a piece of a log alone gives what reading the whole log gives
/// for that kyoku: the same names, game length and red fives, and the same
/// kyoku.
pub proof fn law_piece_reads_as_whole(whole: RawLog, log: Log, i: int, part: RawLog, plog: Log)
    requires
        0 <= i < whole.logs@.len(),
        log_from_raw(log, whole),
        piece_of(part, whole, i),
        log_from_raw(plog, part),
    ensures
        plog.names == log.names,
        plog.game_length == log.game_length,
        plog.has_aka == log.has_aka,
        plog.kyokus@.len() == 1,
        same_kyoku(plog.kyokus@[0], log.kyokus@[i]),
{
    let a = part.logs@[0];
    let b = whole.logs@[i];
    assert(kyoku_from_raw(plog.kyokus@[0], a));
    assert(kyoku_from_raw(log.kyokus@[i], b));
    lemma_same_results_details(a.results@, b.results@, 1);
    assert(is_hora_status(a.results@) == is_hora_status(b.results@)) by {
        if a.results@.len() > 0 {
            assert(same_result(a.results@[0], b.results@[0]));
        }
    }
    assert(draw_deltas(a.results@) == draw_deltas(b.results@)) by {
        if a.results@.len() > 1 {
            assert(same_result(a.results@[0], b.results@[0]));
            assert(same_result(a.results@[1], b.results@[1]));
        }
    }
    let ka = plog.kyokus@[0];
    let kb = log.kyokus@[i];
    assert forall|j: int| 0 <= j < 4 implies {
        &&& (#[trigger] ka.action_tables[j]).haipai == kb.action_tables[j].haipai
        &&& ka.action_tables[j].takes@ == kb.action_tables[j].takes@
        &&& ka.action_tables[j].discards@ == kb.action_tables[j].discards@
    } by {
        if j == 0 {
        } else if j == 1 {
        } else if j == 2 {
        } else {
        }
    }
}

impl RawPartialLog<'_> {
    /// The log of this one kyoku: the parent's names and rules, with this
    /// kyoku alone.
    pub fn to_raw_log(&self) -> (r: RawLog)
        requires
            self.index < self.parent.logs@.len(),
        ensures
            piece_of(r, *self.parent, self.index as int),
    {
        let p = self.parent;
        let mut logs: Vec<RawKyoku> = Vec::new();
        logs.push(copy_raw_kyoku(&p.logs[self.index]));
        let r = RawLog {
            logs,
            names: [p.names[0].clone(), p.names[1].clone(), p.names[2].clone(), p.names[3].clone()],
            rule: Rule {
                disp: p.rule.disp.clone(),
                aka: p.rule.aka,
                aka51: p.rule.aka51,
                aka52: p.rule.aka52,
                aka53: p.rule.aka53,
            },
        };
        proof {
            assert(r.names =~= p.names);
            assert(r.rule == p.rule);
        }
        r
    }
}

} // verus!
