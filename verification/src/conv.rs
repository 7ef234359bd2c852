use vstd::prelude::*;
use vstd::set_lib::{lemma_int_range, lemma_len_subset, set_int_range};

use crate::mjai::{names_view, same_event, Event};
use crate::num::{bytes_as_chars, parse_u8_spec, parse_u8_str};
use crate::pai::Pai;
use crate::tehai::vec_copy;
use crate::tenhou::{ActionItem, EndStatus, Kyoku, Log, RawLog, log_from_raw, piece_of, same_kyoku};
use vstd::utf8::encode_utf8;

verus! {

/// Why a tenhou.net/6 log could not be converted into mjai events.
#[derive(Debug)]
pub enum ConvertError {
    /// A call or declaration that is written in no known way.
    InvalidNaki(String),
    /// A tile number that names no tile.
    InvalidPai(String),
    /// A dora indicator was needed and none was left.
    InsufficientDoraIndicators { kyoku: u8, honba: u8 },
    /// A player had to draw and no draw was left.
    InsufficientTakes { kyoku: u8, honba: u8, actor: u8 },
    /// A player had to discard and no discard was left.
    InsufficientDiscards { kyoku: u8, honba: u8, actor: u8 },
    /// A tsumogiri mark stands among the draws.
    UnexpectedTsumogiri,
    /// A call does not take the last discard from the last discarder.
    UnexpectedNaki {
        action: Event,
        last_dahai: Pai,
        last_actor: Option<u8>,
        kyoku: u8,
        honba: u8,
        actor: u8,
    },
}

/// What a conversion error says, with its texts as character sequences.
pub enum Failure {
    InvalidNaki(Seq<char>),
    InvalidPai(Seq<char>),
    InsufficientDoraIndicators { kyoku: u8, honba: u8 },
    InsufficientTakes { kyoku: u8, honba: u8, actor: u8 },
    InsufficientDiscards { kyoku: u8, honba: u8, actor: u8 },
    UnexpectedTsumogiri,
    UnexpectedNaki {
        action: Event,
        last_dahai: Pai,
        last_actor: Option<u8>,
        kyoku: u8,
        honba: u8,
        actor: u8,
    },
}

/// The error says what the failure says.
pub open spec fn fail_matches(e: ConvertError, f: Failure) -> bool {
    match e {
        ConvertError::InvalidNaki(s) => f matches Failure::InvalidNaki(t) && s@ == t,
        ConvertError::InvalidPai(s) => f matches Failure::InvalidPai(t) && s@ == t,
        ConvertError::InsufficientDoraIndicators { kyoku, honba } => f
            == Failure::InsufficientDoraIndicators { kyoku, honba },
        ConvertError::InsufficientTakes { kyoku, honba, actor } => f == Failure::InsufficientTakes {
            kyoku,
            honba,
            actor,
        },
        ConvertError::InsufficientDiscards { kyoku, honba, actor } => f
            == Failure::InsufficientDiscards { kyoku, honba, actor },
        ConvertError::UnexpectedTsumogiri => f == Failure::UnexpectedTsumogiri,
        ConvertError::UnexpectedNaki { action, last_dahai, last_actor, kyoku, honba, actor } => {
            &&& f matches Failure::UnexpectedNaki {
                action: a2,
                last_dahai: l2,
                last_actor: la2,
                kyoku: k2,
                honba: h2,
                actor: ac2,
            }
            &&& same_event(action, a2)
            &&& last_dahai == l2
            &&& last_actor == la2
            &&& kyoku == k2
            &&& honba == h2
            &&& actor == ac2
        },
    }
}

/// The text that `String::from_utf8_lossy` makes of some bytes.
pub uninterp spec fn lossy_text(b: Seq<u8>) -> Seq<char>;

/// Decodes bytes as UTF-8 with `String::from_utf8_lossy`, which puts U+FFFD
/// in place of each invalid sequence; bytes that are all ASCII give their
/// characters one for one.
#[verifier::external_body]
fn lossy_string(b: &[u8]) -> (r: String)
    ensures
        r@ == lossy_text(b@),
        (forall|i: int| 0 <= i < b@.len() ==> b@[i] < 128) ==> r@ == bytes_as_chars(b@),
{
    String::from_utf8_lossy(b).into_owned()
}

/// The text that bytes decode to: one character per byte where all are
/// ASCII, what `String::from_utf8_lossy` makes of them otherwise.
pub open spec fn decoded_text(b: Seq<u8>) -> Seq<char> {
    if forall|i: int| 0 <= i < b.len() ==> b[i] < 128 {
        bytes_as_chars(b)
    } else {
        lossy_text(b)
    }
}

/// The tile that two bytes of a call string name by their tenhou number.
pub open spec fn pai_parse(b: Seq<u8>) -> Result<Pai, Failure> {
    let t = decoded_text(b);
    match parse_u8_spec(t) {
        Ok(id) => match Pai::from_id(id as int) {
            Some(p) => Ok(p),
            None => Err(Failure::InvalidPai(t)),
        },
        Err(_) => Err(Failure::InvalidPai(t)),
    }
}

/// Reads the tile that some bytes name by their tenhou number.
fn pai_from_bytes(b: &[u8]) -> (r: Result<Pai, ConvertError>)
    ensures
        match pai_parse(b@) {
            Ok(p) => r == Ok::<Pai, ConvertError>(p),
            Err(f) => r matches Err(e) && fail_matches(e, f),
        },
{
    let s = lossy_string(b);
    match parse_u8_str(s.as_str()) {
        Ok(id) => match Pai::from_u8(id) {
            Some(p) => Ok(p),
            None => Err(ConvertError::InvalidPai(s)),
        },
        Err(_) => Err(ConvertError::InvalidPai(s)),
    }
}

/// The first position at or after `i` where `b` holds `x`.
pub open spec fn find_from(b: Seq<u8>, x: u8, i: int) -> Option<int>
    decreases b.len() - i,
{
    if i < 0 || i >= b.len() {
        None
    } else if b[i] == x {
        Some(i)
    } else {
        find_from(b, x, i + 1)
    }
}

/// The first position where `b` holds `x`.
fn find_byte(b: &[u8], x: u8) -> (r: Option<usize>)
    ensures
        match r {
            Some(i) => find_from(b@, x, 0) == Some(i as int),
            None => find_from(b@, x, 0) is None,
        },
{
    let mut i: usize = 0;
    while i < b.len()
        invariant
            i <= b@.len(),
            find_from(b@, x, 0) == find_from(b@, x, i as int),
        decreases b@.len() - i,
    {
        if b[i] == x {
            return Some(i);
        }
        i = i + 1;
    }
    None
}

/// The tiles that the two-byte numbers at the given offsets name, read in
/// the order of the offsets; the first that names no tile fails.
pub open spec fn read_pais(b: Seq<u8>, offs: Seq<int>) -> Result<Seq<Pai>, Failure>
    decreases offs.len(),
{
    if offs.len() == 0 {
        Ok(Seq::empty())
    } else {
        match read_pais(b, offs.drop_last()) {
            Ok(ps) => match pai_parse(b.subrange(offs.last(), offs.last() + 2)) {
                Ok(p) => Ok(ps.push(p)),
                Err(f) => Err(f),
            },
            Err(f) => Err(f),
        }
    }
}

/// Reads the tiles at the given offsets of a call string.
fn read_pais_exec(b: &[u8], offs: &[usize]) -> (r: Result<Vec<Pai>, ConvertError>)
    requires
        forall|k: int| 0 <= k < offs@.len() ==> offs@[k] + 2 <= b@.len(),
    ensures
        match read_pais(b@, offs@.map_values(|o: usize| o as int)) {
            Ok(ps) => r matches Ok(v) && v@ == ps,
            Err(f) => r matches Err(e) && fail_matches(e, f),
        },
{
    let ghost all = offs@.map_values(|o: usize| o as int);
    let mut out: Vec<Pai> = Vec::new();
    let n = b.len();
    let mut k: usize = 0;
    while k < offs.len()
        invariant
            n == b@.len(),
            k <= offs@.len(),
            all == offs@.map_values(|o: usize| o as int),
            forall|j: int| 0 <= j < offs@.len() ==> offs@[j] + 2 <= b@.len(),
            read_pais(b@, all.take(k as int)) == Ok::<Seq<Pai>, Failure>(out@),
        decreases offs@.len() - k,
    {
        let o = offs[k];
        assert(offs@[k as int] + 2 <= b@.len());
        let piece = vstd::slice::slice_subrange(b, o, o + 2);
        proof {
            assert(all.take(k + 1).drop_last() =~= all.take(k as int));
            assert(all.take(k + 1).last() == o as int);
        }
        match pai_from_bytes(piece) {
            Ok(p) => {
                out.push(p);
            },
            Err(e) => {
                proof {
                    assert(read_pais(b@, all.take(k + 1)) is Err);
                    lemma_read_pais_err_extends(b@, all, k as int + 1);
                    assert(all.take(offs@.len() as int) =~= all);
                }
                return Err(e);
            },
        }
        k = k + 1;
    }
    proof {
        assert(all.take(k as int) =~= all);
    }
    Ok(out)
}

/// A failure while reading the first `k` offsets stays the failure of all
/// of them.
proof fn lemma_read_pais_err_extends(b: Seq<u8>, offs: Seq<int>, k: int)
    requires
        0 <= k <= offs.len(),
        read_pais(b, offs.take(k)) is Err,
    ensures
        read_pais(b, offs) == read_pais(b, offs.take(k)),
    decreases offs.len() - k,
{
    if k < offs.len() {
        assert(offs.take(k + 1).drop_last() =~= offs.take(k));
        lemma_read_pais_err_extends(b, offs, k + 1);
    } else {
        assert(offs.take(k) =~= offs);
    }
}

/// A successful read gives one tile per offset.
proof fn lemma_read_pais_len(b: Seq<u8>, offs: Seq<int>)
    ensures
        read_pais(b, offs) matches Ok(ps) ==> ps.len() == offs.len(),
    decreases offs.len(),
{
    if offs.len() > 0 {
        lemma_read_pais_len(b, offs.drop_last());
    }
}

/// The byte `c`, which marks a chi.
pub const CHI_MARK: u8 = 99;

/// The byte `p`, which marks a pon.
pub const PON_MARK: u8 = 112;

/// The byte `m`, which marks an open kan.
pub const MINKAN_MARK: u8 = 109;

/// The byte `k`, which marks an added kan.
pub const KAKAN_MARK: u8 = 107;

/// The byte `a`, which marks a closed kan.
pub const ANKAN_MARK: u8 = 97;

/// The byte `6`.
pub const DIGIT_SIX: u8 = 54;

/// The byte `0`.
pub const DIGIT_ZERO: u8 = 48;

/// The event of a call read from a call string: the tiles at `offs`, the
/// called tile first.
pub open spec fn read_call(b: Seq<u8>, offs: Seq<int>, make: spec_fn(Seq<Pai>) -> Event) -> Result<
    Event,
    Failure,
> {
    match read_pais(b, offs) {
        Ok(ps) => Ok(make(ps)),
        Err(f) => Err(f),
    }
}

/// The seat `k` places after `actor`, counted the way the seats turn.
pub open spec fn seat_after(actor: u8, k: int) -> u8 {
    ((actor + k) % 4) as u8
}

/// The pon that a call string with `p` at `idx` stands for: the place of
/// the `p` names the player called from.
pub open spec fn pon_naki(actor: u8, s: Seq<char>, b: Seq<u8>, idx: int) -> Result<Event, Failure> {
    if b.len() != 7 {
        Err(Failure::InvalidNaki(s))
    } else if idx == 0 {
        read_call(
            b,
            seq![1int, 3, 5],
            |p: Seq<Pai>|
                Event::Pon { actor, target: seat_after(actor, 3), pai: p[0], consumed: [p[1], p[2]] },
        )
    } else if idx == 2 {
        read_call(
            b,
            seq![3int, 0, 5],
            |p: Seq<Pai>|
                Event::Pon { actor, target: seat_after(actor, 2), pai: p[0], consumed: [p[1], p[2]] },
        )
    } else if idx == 4 {
        read_call(
            b,
            seq![5int, 0, 2],
            |p: Seq<Pai>|
                Event::Pon { actor, target: seat_after(actor, 1), pai: p[0], consumed: [p[1], p[2]] },
        )
    } else {
        Err(Failure::InvalidNaki(s))
    }
}

/// The open kan that a call string with `m` at `idx` stands for.
pub open spec fn minkan_naki(actor: u8, s: Seq<char>, b: Seq<u8>, idx: int) -> Result<
    Event,
    Failure,
> {
    if b.len() != 9 {
        Err(Failure::InvalidNaki(s))
    } else if idx == 0 {
        read_call(
            b,
            seq![1int, 3, 5, 7],
            |p: Seq<Pai>|
                Event::Daiminkan {
                    actor,
                    target: seat_after(actor, 3),
                    pai: p[0],
                    consumed: [p[1], p[2], p[3]],
                },
        )
    } else if idx == 2 {
        read_call(
            b,
            seq![3int, 0, 5, 7],
            |p: Seq<Pai>|
                Event::Daiminkan {
                    actor,
                    target: seat_after(actor, 2),
                    pai: p[0],
                    consumed: [p[1], p[2], p[3]],
                },
        )
    } else if idx == 6 {
        read_call(
            b,
            seq![7int, 0, 2, 4],
            |p: Seq<Pai>|
                Event::Daiminkan {
                    actor,
                    target: seat_after(actor, 1),
                    pai: p[0],
                    consumed: [p[1], p[2], p[3]],
                },
        )
    } else {
        Err(Failure::InvalidNaki(s))
    }
}

/// The event that a call string among a player's draws stands for: a chi
/// (`c` then the called tile and the two of the hand), a pon (`p` before
/// the called tile, whose place names the player called from) or an open
/// kan (`m` likewise).
pub open spec fn take_naki(actor: u8, s: Seq<char>) -> Result<Event, Failure> {
    let b = encode_utf8(s);
    if find_from(b, CHI_MARK, 0) is Some {
        if b.len() != 7 {
            Err(Failure::InvalidNaki(s))
        } else {
            read_call(
                b,
                seq![1int, 3, 5],
                |p: Seq<Pai>|
                    Event::Chi {
                        actor,
                        target: seat_after(actor, 3),
                        pai: p[0],
                        consumed: [p[1], p[2]],
                    },
            )
        }
    } else {
        match find_from(b, PON_MARK, 0) {
            Some(idx) => pon_naki(actor, s, b, idx),
            None => match find_from(b, MINKAN_MARK, 0) {
                Some(idx) => minkan_naki(actor, s, b, idx),
                None => Err(Failure::InvalidNaki(s)),
            },
        }
    }
}

/// The event that an item of a player's draws stands for.
pub open spec fn take_item(actor: u8, it: ActionItem) -> Result<Event, Failure> {
    match it {
        ActionItem::Tsumogiri(_) => Err(Failure::UnexpectedTsumogiri),
        ActionItem::Pai(p) => Ok(Event::Tsumo { actor, pai: p }),
        ActionItem::Naki(s) => take_naki(actor, s@),
    }
}

/// The added kan that a declaration string with `k` at `idx` stands for:
/// the place of the `k` tells from whom the pon was.
pub open spec fn kakan_naki(actor: u8, s: Seq<char>, b: Seq<u8>, idx: int) -> Result<
    Event,
    Failure,
> {
    if b.len() != 9 {
        Err(Failure::InvalidNaki(s))
    } else if idx == 0 {
        read_call(
            b,
            seq![1int, 3, 5, 7],
            |p: Seq<Pai>| Event::Kakan { actor, pai: p[0], consumed: [p[1], p[2], p[3]] },
        )
    } else if idx == 2 {
        read_call(
            b,
            seq![3int, 0, 5, 7],
            |p: Seq<Pai>| Event::Kakan { actor, pai: p[0], consumed: [p[1], p[2], p[3]] },
        )
    } else if idx == 4 {
        read_call(
            b,
            seq![5int, 0, 2, 7],
            |p: Seq<Pai>| Event::Kakan { actor, pai: p[0], consumed: [p[1], p[2], p[3]] },
        )
    } else {
        Err(Failure::InvalidNaki(s))
    }
}

/// The closed kan that a declaration string with `a` stands for.
pub open spec fn ankan_naki(actor: u8, s: Seq<char>, b: Seq<u8>) -> Result<Event, Failure> {
    if b.len() != 9 {
        Err(Failure::InvalidNaki(s))
    } else {
        read_call(
            b,
            seq![7int, 0, 2, 4],
            |p: Seq<Pai>| Event::Ankan { actor, consumed: [p[1], p[2], p[3], p[0]] },
        )
    }
}

/// The tile of a riichi string: `60` is the tile just drawn, still unknown.
pub open spec fn reach_pai(b: Seq<u8>) -> Result<Pai, Failure> {
    if b[1] == DIGIT_SIX && b[2] == DIGIT_ZERO {
        Ok(Pai::Unknown)
    } else {
        pai_parse(b.subrange(1, 3))
    }
}

/// The events that a declaration string among a player's discards stands
/// for: an added kan (`k` before the added tile), a closed kan (`a`) or a
/// riichi (`r` and the discarded tile, `60` for the tile just drawn).
pub open spec fn discard_naki(actor: u8, s: Seq<char>) -> Result<Seq<Event>, Failure> {
    let b = encode_utf8(s);
    match find_from(b, KAKAN_MARK, 0) {
        Some(idx) => match kakan_naki(actor, s, b, idx) {
            Ok(e) => Ok(seq![e]),
            Err(f) => Err(f),
        },
        None => if find_from(b, ANKAN_MARK, 0) is Some {
            match ankan_naki(actor, s, b) {
                Ok(e) => Ok(seq![e]),
                Err(f) => Err(f),
            }
        } else if b.len() != 3 {
            Err(Failure::InvalidNaki(s))
        } else {
            match reach_pai(b) {
                Ok(p) => Ok(
                    seq![
                        Event::Reach { actor },
                        Event::Dahai { actor, pai: p, tsumogiri: p == Pai::Unknown },
                    ],
                ),
                Err(f) => Err(f),
            }
        },
    }
}

/// The events that an item of a player's discards stands for; a tsumogiri
/// mark leaves the tile open for now.
pub open spec fn discard_item(actor: u8, it: ActionItem) -> Result<Seq<Event>, Failure> {
    match it {
        ActionItem::Pai(p) => Ok(seq![Event::Dahai { actor, pai: p, tsumogiri: false }]),
        ActionItem::Tsumogiri(_) => Ok(
            seq![Event::Dahai { actor, pai: Pai::Unknown, tsumogiri: true }],
        ),
        ActionItem::Naki(s) => discard_naki(actor, s@),
    }
}

/// Reads the tiles at the given offsets of a call string and builds the
/// call with `make`.
fn read_offsets<const N: usize>(b: &[u8], offs: [usize; N]) -> (r: Result<Vec<Pai>, ConvertError>)
    requires
        forall|k: int| 0 <= k < N ==> offs[k] + 2 <= b@.len(),
    ensures
        match read_pais(b@, offs@.map_values(|o: usize| o as int)) {
            Ok(ps) => r matches Ok(v) && v@ == ps && v@.len() == N,
            Err(f) => r matches Err(e) && fail_matches(e, f),
        },
{
    proof {
        lemma_read_pais_len(b@, offs@.map_values(|o: usize| o as int));
    }
    read_pais_exec(b, offs.as_slice())
}

/// The pon that a call string with `p` at `idx` stands for.
fn pon_exec(actor: u8, s: &String, b: &[u8], idx: usize) -> (r: Result<Event, ConvertError>)
    requires
        actor < 4,
        b@ == encode_utf8(s@),
    ensures
        match pon_naki(actor, s@, b@, idx as int) {
            Ok(e) => r matches Ok(x) && x == e,
            Err(f) => r matches Err(x) && fail_matches(x, f),
        },
{
    if b.len() != 7 {
        return Err(ConvertError::InvalidNaki(s.clone()));
    }
    if idx == 0 {
        let offs: [usize; 3] = [1, 3, 5];
        proof {
            assert(offs@.map_values(|o: usize| o as int) =~= seq![1int, 3, 5]);
        }
        match read_offsets(b, offs) {
            Ok(p) => Ok(
                Event::Pon { actor, target: (actor + 3) % 4, pai: p[0], consumed: [p[1], p[2]] },
            ),
            Err(e) => Err(e),
        }
    } else if idx == 2 {
        let offs: [usize; 3] = [3, 0, 5];
        proof {
            assert(offs@.map_values(|o: usize| o as int) =~= seq![3int, 0, 5]);
        }
        match read_offsets(b, offs) {
            Ok(p) => Ok(
                Event::Pon { actor, target: (actor + 2) % 4, pai: p[0], consumed: [p[1], p[2]] },
            ),
            Err(e) => Err(e),
        }
    } else if idx == 4 {
        let offs: [usize; 3] = [5, 0, 2];
        proof {
            assert(offs@.map_values(|o: usize| o as int) =~= seq![5int, 0, 2]);
        }
        match read_offsets(b, offs) {
            Ok(p) => Ok(
                Event::Pon { actor, target: (actor + 1) % 4, pai: p[0], consumed: [p[1], p[2]] },
            ),
            Err(e) => Err(e),
        }
    } else {
        Err(ConvertError::InvalidNaki(s.clone()))
    }
}

/// The open kan that a call string with `m` at `idx` stands for.
fn minkan_exec(actor: u8, s: &String, b: &[u8], idx: usize) -> (r: Result<Event, ConvertError>)
    requires
        actor < 4,
        b@ == encode_utf8(s@),
    ensures
        match minkan_naki(actor, s@, b@, idx as int) {
            Ok(e) => r matches Ok(x) && x == e,
            Err(f) => r matches Err(x) && fail_matches(x, f),
        },
{
    if b.len() != 9 {
        return Err(ConvertError::InvalidNaki(s.clone()));
    }
    if idx == 0 {
        let offs: [usize; 4] = [1, 3, 5, 7];
        proof {
            assert(offs@.map_values(|o: usize| o as int) =~= seq![1int, 3, 5, 7]);
        }
        match read_offsets(b, offs) {
            Ok(p) => Ok(
                Event::Daiminkan {
                    actor,
                    target: (actor + 3) % 4,
                    pai: p[0],
                    consumed: [p[1], p[2], p[3]],
                },
            ),
            Err(e) => Err(e),
        }
    } else if idx == 2 {
        let offs: [usize; 4] = [3, 0, 5, 7];
        proof {
            assert(offs@.map_values(|o: usize| o as int) =~= seq![3int, 0, 5, 7]);
        }
        match read_offsets(b, offs) {
            Ok(p) => Ok(
                Event::Daiminkan {
                    actor,
                    target: (actor + 2) % 4,
                    pai: p[0],
                    consumed: [p[1], p[2], p[3]],
                },
            ),
            Err(e) => Err(e),
        }
    } else if idx == 6 {
        let offs: [usize; 4] = [7, 0, 2, 4];
        proof {
            assert(offs@.map_values(|o: usize| o as int) =~= seq![7int, 0, 2, 4]);
        }
        match read_offsets(b, offs) {
            Ok(p) => Ok(
                Event::Daiminkan {
                    actor,
                    target: (actor + 1) % 4,
                    pai: p[0],
                    consumed: [p[1], p[2], p[3]],
                },
            ),
            Err(e) => Err(e),
        }
    } else {
        Err(ConvertError::InvalidNaki(s.clone()))
    }
}

/// The event that an item of a player's draws stands for.
fn take_item_exec(actor: u8, it: &ActionItem) -> (r: Result<Event, ConvertError>)
    requires
        actor < 4,
    ensures
        match take_item(actor, *it) {
            Ok(e) => r matches Ok(x) && x == e,
            Err(f) => r matches Err(x) && fail_matches(x, f),
        },
{
    match it {
        ActionItem::Tsumogiri(_) => Err(ConvertError::UnexpectedTsumogiri),
        ActionItem::Pai(p) => Ok(Event::Tsumo { actor, pai: *p }),
        ActionItem::Naki(s) => {
            let b = s.as_str().as_bytes();
            if find_byte(b, CHI_MARK).is_some() {
                if b.len() != 7 {
                    return Err(ConvertError::InvalidNaki(s.clone()));
                }
                let offs: [usize; 3] = [1, 3, 5];
                proof {
                    assert(offs@.map_values(|o: usize| o as int) =~= seq![1int, 3, 5]);
                }
                return match read_offsets(b, offs) {
                    Ok(p) => Ok(
                        Event::Chi {
                            actor,
                            target: (actor + 3) % 4,
                            pai: p[0],
                            consumed: [p[1], p[2]],
                        },
                    ),
                    Err(e) => Err(e),
                };
            }
            match find_byte(b, PON_MARK) {
                Some(idx) => pon_exec(actor, s, b, idx),
                None => match find_byte(b, MINKAN_MARK) {
                    Some(idx) => minkan_exec(actor, s, b, idx),
                    None => Err(ConvertError::InvalidNaki(s.clone())),
                },
            }
        },
    }
}

/// The added kan that a declaration string with `k` at `idx` stands for.
fn kakan_exec(actor: u8, s: &String, b: &[u8], idx: usize) -> (r: Result<Event, ConvertError>)
    requires
        b@ == encode_utf8(s@),
    ensures
        match kakan_naki(actor, s@, b@, idx as int) {
            Ok(e) => r matches Ok(x) && x == e,
            Err(f) => r matches Err(x) && fail_matches(x, f),
        },
{
    if b.len() != 9 {
        return Err(ConvertError::InvalidNaki(s.clone()));
    }
    if idx == 0 {
        let offs: [usize; 4] = [1, 3, 5, 7];
        proof {
            assert(offs@.map_values(|o: usize| o as int) =~= seq![1int, 3, 5, 7]);
        }
        match read_offsets(b, offs) {
            Ok(p) => Ok(Event::Kakan { actor, pai: p[0], consumed: [p[1], p[2], p[3]] }),
            Err(e) => Err(e),
        }
    } else if idx == 2 {
        let offs: [usize; 4] = [3, 0, 5, 7];
        proof {
            assert(offs@.map_values(|o: usize| o as int) =~= seq![3int, 0, 5, 7]);
        }
        match read_offsets(b, offs) {
            Ok(p) => Ok(Event::Kakan { actor, pai: p[0], consumed: [p[1], p[2], p[3]] }),
            Err(e) => Err(e),
        }
    } else if idx == 4 {
        let offs: [usize; 4] = [5, 0, 2, 7];
        proof {
            assert(offs@.map_values(|o: usize| o as int) =~= seq![5int, 0, 2, 7]);
        }
        match read_offsets(b, offs) {
            Ok(p) => Ok(Event::Kakan { actor, pai: p[0], consumed: [p[1], p[2], p[3]] }),
            Err(e) => Err(e),
        }
    } else {
        Err(ConvertError::InvalidNaki(s.clone()))
    }
}

/// The events that an item of a player's discards stands for, pushed onto
/// `out`.
fn discard_item_exec(actor: u8, it: &ActionItem, out: &mut Vec<Event>) -> (r: Result<
    (),
    ConvertError,
>)
    ensures
        match discard_item(actor, *it) {
            Ok(es) => r is Ok && final(out)@ == old(out)@ + es,
            Err(f) => r matches Err(x) && fail_matches(x, f),
        },
{
    match it {
        ActionItem::Pai(p) => {
            out.push(Event::Dahai { actor, pai: *p, tsumogiri: false });
            proof {
                assert(final(out)@ =~= old(out)@ + seq![
                    Event::Dahai { actor, pai: *p, tsumogiri: false },
                ]);
            }
            Ok(())
        },
        ActionItem::Tsumogiri(_) => {
            out.push(Event::Dahai { actor, pai: Pai::Unknown, tsumogiri: true });
            proof {
                assert(final(out)@ =~= old(out)@ + seq![
                    Event::Dahai { actor, pai: Pai::Unknown, tsumogiri: true },
                ]);
            }
            Ok(())
        },
        ActionItem::Naki(s) => {
            let b = s.as_str().as_bytes();
            match find_byte(b, KAKAN_MARK) {
                Some(idx) => {
                    match kakan_exec(actor, s, b, idx) {
                        Ok(e) => {
                            let ghost e0 = e;
                            out.push(e);
                            proof {
                                assert(final(out)@ =~= old(out)@ + seq![e0]);
                            }
                            Ok(())
                        },
                        Err(e) => Err(e),
                    }
                },
                None => {
                    if find_byte(b, ANKAN_MARK).is_some() {
                        if b.len() != 9 {
                            return Err(ConvertError::InvalidNaki(s.clone()));
                        }
                        let offs: [usize; 4] = [7, 0, 2, 4];
                        proof {
                            assert(offs@.map_values(|o: usize| o as int) =~= seq![7int, 0, 2, 4]);
                        }
                        match read_offsets(b, offs) {
                            Ok(p) => {
                                let e = Event::Ankan { actor, consumed: [p[1], p[2], p[3], p[0]] };
                                let ghost e0 = e;
                                out.push(e);
                                proof {
                                    assert(final(out)@ =~= old(out)@ + seq![e0]);
                                }
                                Ok(())
                            },
                            Err(e) => Err(e),
                        }
                    } else {
                        if b.len() != 3 {
                            return Err(ConvertError::InvalidNaki(s.clone()));
                        }
                        let pai = if b[1] == DIGIT_SIX && b[2] == DIGIT_ZERO {
                            Pai::Unknown
                        } else {
                            let piece = vstd::slice::slice_subrange(b, 1, 3);
                            match pai_from_bytes(piece) {
                                Ok(p) => p,
                                Err(e) => {
                                    return Err(e);
                                },
                            }
                        };
                        out.push(Event::Reach { actor });
                        out.push(Event::Dahai { actor, pai, tsumogiri: pai == Pai::Unknown });
                        proof {
                            assert(final(out)@ =~= old(out)@ + seq![
                                Event::Reach { actor },
                                Event::Dahai { actor, pai, tsumogiri: pai == Pai::Unknown },
                            ]);
                        }
                        Ok(())
                    }
                },
            }
        },
    }
}

/// The events of a player's draws: a tile is a draw, a call string a
/// call; the first item that is neither fails the whole.
pub open spec fn take_events_of(actor: u8, items: Seq<ActionItem>) -> Result<Seq<Event>, Failure>
    decreases items.len(),
{
    if items.len() == 0 {
        Ok(Seq::empty())
    } else {
        match take_events_of(actor, items.drop_last()) {
            Ok(es) => match take_item(actor, items.last()) {
                Ok(e) => Ok(es.push(e)),
                Err(f) => Err(f),
            },
            Err(f) => Err(f),
        }
    }
}

/// The events of a player's discards, in order; the first item that
/// cannot be read fails the whole.
pub open spec fn discard_events_of(actor: u8, items: Seq<ActionItem>) -> Result<
    Seq<Event>,
    Failure,
>
    decreases items.len(),
{
    if items.len() == 0 {
        Ok(Seq::empty())
    } else {
        match discard_events_of(actor, items.drop_last()) {
            Ok(es) => match discard_item(actor, items.last()) {
                Ok(more) => Ok(es + more),
                Err(f) => Err(f),
            },
            Err(f) => Err(f),
        }
    }
}

/// A failure on the first `k` draws stays the failure of all of them.
proof fn lemma_take_err_extends(actor: u8, items: Seq<ActionItem>, k: int)
    requires
        0 <= k <= items.len(),
        take_events_of(actor, items.take(k)) is Err,
    ensures
        take_events_of(actor, items) == take_events_of(actor, items.take(k)),
    decreases items.len() - k,
{
    if k < items.len() {
        assert(items.take(k + 1).drop_last() =~= items.take(k));
        lemma_take_err_extends(actor, items, k + 1);
    } else {
        assert(items.take(k) =~= items);
    }
}

/// A failure on the first `k` discards stays the failure of all of them.
proof fn lemma_discard_err_extends(actor: u8, items: Seq<ActionItem>, k: int)
    requires
        0 <= k <= items.len(),
        discard_events_of(actor, items.take(k)) is Err,
    ensures
        discard_events_of(actor, items) == discard_events_of(actor, items.take(k)),
    decreases items.len() - k,
{
    if k < items.len() {
        assert(items.take(k + 1).drop_last() =~= items.take(k));
        lemma_discard_err_extends(actor, items, k + 1);
    } else {
        assert(items.take(k) =~= items);
    }
}

/// Reads a player's draws into events.
fn take_action_to_events(actor: u8, takes: &Vec<ActionItem>) -> (r: Result<
    Vec<Event>,
    ConvertError,
>)
    requires
        actor < 4,
    ensures
        match take_events_of(actor, takes@) {
            Ok(es) => r matches Ok(v) && v@ == es,
            Err(f) => r matches Err(x) && fail_matches(x, f),
        },
{
    let mut out: Vec<Event> = Vec::new();
    let mut k: usize = 0;
    while k < takes.len()
        invariant
            actor < 4,
            k <= takes@.len(),
            take_events_of(actor, takes@.take(k as int)) == Ok::<Seq<Event>, Failure>(out@),
        decreases takes@.len() - k,
    {
        proof {
            assert(takes@.take(k + 1).drop_last() =~= takes@.take(k as int));
            assert(takes@.take(k + 1).last() == takes@[k as int]);
        }
        match take_item_exec(actor, &takes[k]) {
            Ok(e) => {
                out.push(e);
            },
            Err(e) => {
                proof {
                    lemma_take_err_extends(actor, takes@, k + 1);
                }
                return Err(e);
            },
        }
        k = k + 1;
    }
    proof {
        assert(takes@.take(k as int) =~= takes@);
    }
    Ok(out)
}

/// Reads a player's discards into events.
fn discard_action_to_events(actor: u8, discards: &Vec<ActionItem>) -> (r: Result<
    Vec<Event>,
    ConvertError,
>)
    ensures
        match discard_events_of(actor, discards@) {
            Ok(es) => r matches Ok(v) && v@ == es,
            Err(f) => r matches Err(x) && fail_matches(x, f),
        },
{
    let mut out: Vec<Event> = Vec::new();
    let mut k: usize = 0;
    while k < discards.len()
        invariant
            k <= discards@.len(),
            discard_events_of(actor, discards@.take(k as int)) == Ok::<Seq<Event>, Failure>(out@),
        decreases discards@.len() - k,
    {
        proof {
            assert(discards@.take(k + 1).drop_last() =~= discards@.take(k as int));
            assert(discards@.take(k + 1).last() == discards@[k as int]);
        }
        match discard_item_exec(actor, &discards[k], &mut out) {
            Ok(()) => {},
            Err(e) => {
                proof {
                    lemma_discard_err_extends(actor, discards@, k + 1);
                }
                return Err(e);
            },
        }
        k = k + 1;
    }
    proof {
        assert(discards@.take(k as int) =~= discards@);
    }
    Ok(out)
}

/// The event is a riichi declaration.
pub open spec fn is_reach(e: Event) -> bool {
    e is Reach
}

/// The event can follow a riichi declaration: a discard that is a
/// tsumogiri or names its tile.
pub open spec fn follows_reach(e: Event) -> bool {
    e matches Event::Dahai { pai, tsumogiri, .. } && (tsumogiri || pai != Pai::Unknown)
}

/// Each riichi declaration among the discards is followed by its discard,
/// which is a tsumogiri or names its tile.
pub open spec fn reach_pairs_ok(ds: Seq<Event>) -> bool {
    forall|i: int|
        0 <= i < ds.len() && #[trigger] is_reach(ds[i]) ==> i + 1 < ds.len() && follows_reach(
            ds[i + 1],
        )
}

/// The events of one discard item pair each riichi with its discard.
proof fn lemma_discard_item_pairs(actor: u8, it: ActionItem)
    ensures
        discard_item(actor, it) matches Ok(more) ==> reach_pairs_ok(more),
{
    if let Ok(more) = discard_item(actor, it) {
        assert forall|i: int| 0 <= i < more.len() && #[trigger] is_reach(more[i]) implies i + 1
            < more.len() && follows_reach(more[i + 1]) by {
            if more.len() == 1 {
                assert(!is_reach(more[0]));
            }
        }
    }
}

/// The discards read from a player's list always pair each riichi with its
/// discard.
proof fn lemma_discard_events_pairs(actor: u8, items: Seq<ActionItem>)
    ensures
        discard_events_of(actor, items) matches Ok(es) ==> reach_pairs_ok(es),
    decreases items.len(),
{
    if items.len() > 0 {
        lemma_discard_events_pairs(actor, items.drop_last());
        lemma_discard_item_pairs(actor, items.last());
        if let Ok(es) = discard_events_of(actor, items.drop_last()) {
            if let Ok(more) = discard_item(actor, items.last()) {
                let all = es + more;
                assert forall|i: int| 0 <= i < all.len() && #[trigger] is_reach(all[i]) implies i
                    + 1 < all.len() && follows_reach(all[i + 1]) by {
                    if i < es.len() {
                        assert(is_reach(es[i]));
                    } else {
                        assert(is_reach(more[i - es.len()]));
                    }
                }
            }
        }
    }
}

/// The discards after the tiles of tsumogiri are filled in from the draws
/// and the empty discards that follow open kans are dropped, walking the
/// draws from `t` and the discards from `di`.
pub open spec fn finalize(takes: Seq<Event>, t: int, ds: Seq<Event>, di: int) -> Seq<Event>
    decreases takes.len() - t,
{
    if t < 0 || t >= takes.len() || di < 0 || di >= ds.len() {
        ds
    } else {
        let d = if ds[di] is Reach {
            di + 1
        } else {
            di
        };
        match ds[d] {
            Event::Dahai { pai, tsumogiri, actor } => if tsumogiri {
                match takes[t] {
                    Event::Tsumo { pai: drawn, .. } => finalize(
                        takes,
                        t + 1,
                        ds.update(d, Event::Dahai { pai: drawn, tsumogiri, actor }),
                        d + 1,
                    ),
                    _ => finalize(takes, t + 1, ds, d + 1),
                }
            } else if pai == Pai::Unknown {
                finalize(takes, t + 1, ds.remove(d), d)
            } else {
                finalize(takes, t + 1, ds, d + 1)
            },
            _ => finalize(takes, t + 1, ds, d + 1),
        }
    }
}

/// Fills in the tiles of tsumogiri from the draws and drops the empty
/// discards that follow open kans.
fn finalize_discards(takes: &Vec<Event>, discards: &mut Vec<Event>)
    requires
        reach_pairs_ok(old(discards)@),
    ensures
        final(discards)@ == finalize(takes@, 0, old(discards)@, 0),
{
    let ghost orig = discards@;
    let mut di: usize = 0;
    let mut t: usize = 0;
    while t < takes.len() && di < discards.len()
        invariant
            t <= takes@.len(),
            di <= discards@.len(),
            reach_pairs_ok(discards@),
            finalize(takes@, t as int, discards@, di as int) == finalize(takes@, 0, orig, 0),
        decreases takes@.len() - t,
    {
        let ghost before = discards@;
        let mut d = di;
        if let Event::Reach { .. } = &discards[di] {
            assert(is_reach(discards@[di as int]));
            d = di + 1;
        }
        assert(d < discards@.len());
        let mut next = d + 1;
        match &discards[d] {
            Event::Dahai { pai, tsumogiri, actor } => {
                let (p, g, a) = (*pai, *tsumogiri, *actor);
                if g {
                    if let Event::Tsumo { pai: drawn, .. } = &takes[t] {
                        let drawn = *drawn;
                        discards.set(d, Event::Dahai { pai: drawn, tsumogiri: g, actor: a });
                        proof {
                            assert forall|i: int|
                                0 <= i < discards@.len() && #[trigger] is_reach(
                                    discards@[i],
                                ) implies i + 1 < discards@.len() && follows_reach(
                                discards@[i + 1],
                            ) by {
                                assert(is_reach(before[i]));
                            }
                        }
                    }
                } else if p == Pai::Unknown {
                    discards.remove(d);
                    next = d;
                    proof {
                        assert forall|i: int|
                            0 <= i < discards@.len() && #[trigger] is_reach(
                                discards@[i],
                            ) implies i + 1 < discards@.len() && follows_reach(
                            discards@[i + 1],
                        ) by {
                            if i < d {
                                assert(is_reach(before[i]));
                            } else {
                                assert(is_reach(before[i + 1]));
                            }
                        }
                    }
                }
            },
            _ => {},
        }
        t = t + 1;
        di = next;
    }
    proof {
        assert(finalize(takes@, t as int, discards@, di as int) == discards@);
    }
}

/// A player's draws and discards as events, the discards finished from the
/// draws; the draws are read first.
#[verifier::opaque]
pub open spec fn parse_actor(actor: u8, takes: Seq<ActionItem>, discards: Seq<ActionItem>) -> Result<
    (Seq<Event>, Seq<Event>),
    Failure,
> {
    match take_events_of(actor, takes) {
        Err(f) => Err(f),
        Ok(ts) => match discard_events_of(actor, discards) {
            Err(f) => Err(f),
            Ok(ds) => Ok((ts, finalize(ts, 0, ds, 0))),
        },
    }
}

/// Reads a player's draws and discards into events.
fn parse_takes_and_discards_to_mjai(
    actor: u8,
    takes: &Vec<ActionItem>,
    discards: &Vec<ActionItem>,
) -> (r: Result<(Vec<Event>, Vec<Event>), ConvertError>)
    requires
        actor < 4,
    ensures
        match parse_actor(actor, takes@, discards@) {
            Ok((ts, ds)) => r matches Ok((a, b)) && a@ == ts && b@ == ds,
            Err(f) => r matches Err(x) && fail_matches(x, f),
        },
{
    proof {
        reveal(parse_actor);
    }
    let mjai_takes = match take_action_to_events(actor, takes) {
        Ok(v) => v,
        Err(e) => {
            return Err(e);
        },
    };
    let mut mjai_discards = match discard_action_to_events(actor, discards) {
        Ok(v) => v,
        Err(e) => {
            return Err(e);
        },
    };
    proof {
        lemma_discard_events_pairs(actor, discards@);
    }
    finalize_discards(&mjai_takes, &mut mjai_discards);
    Ok((mjai_takes, mjai_discards))
}

/// Two event lists say the same, event by event.
pub open spec fn same_events(a: Seq<Event>, b: Seq<Event>) -> bool {
    a.len() == b.len() && forall|i: int| 0 <= i < a.len() ==> same_event(#[trigger] a[i], b[i])
}

/// The events that close a kyoku: one win per winner, with the score
/// changes and the ura dora indicators, or the draw; then the end.
pub open spec fn end_events(k: Kyoku) -> Seq<Event> {
    match k.end_status {
        EndStatus::Hora { details } => details@.map_values(
            |d: crate::tenhou::HoraDetail|
                Event::Hora {
                    actor: d.who,
                    target: d.target,
                    deltas: Some(d.score_deltas),
                    ura_markers: Some(k.ura_indicators),
                },
        ).push(Event::EndKyoku),
        EndStatus::Ryukyoku { score_deltas } => seq![
            Event::Ryukyoku { deltas: Some(score_deltas) },
            Event::EndKyoku,
        ],
    }
}

/// Appends the events that close the kyoku.
fn end_kyoku(events: &mut Vec<Event>, kyoku: &Kyoku)
    ensures
        final(events)@.len() == old(events)@.len() + end_events(*kyoku).len(),
        final(events)@.take(old(events)@.len() as int) == old(events)@,
        same_events(final(events)@.skip(old(events)@.len() as int), end_events(*kyoku)),
{
    let ghost start = events@;
    match &kyoku.end_status {
        EndStatus::Hora { details } => {
            let ghost want = end_events(*kyoku);
            let mut i: usize = 0;
            while i < details.len()
                invariant
                    i <= details@.len(),
                    want == end_events(*kyoku),
                    kyoku.end_status == (EndStatus::Hora { details: *details }),
                    events@.len() == start.len() + i,
                    events@.take(start.len() as int) == start,
                    forall|j: int|
                        0 <= j < i ==> same_event(#[trigger] events@[start.len() + j], want[j]),
                decreases details@.len() - i,
            {
                let d = details[i];
                events.push(
                    Event::Hora {
                        actor: d.who,
                        target: d.target,
                        deltas: Some(d.score_deltas),
                        ura_markers: Some(vec_copy(&kyoku.ura_indicators)),
                    },
                );
                proof {
                    assert(events@.take(start.len() as int) =~= start);
                }
                i = i + 1;
            }
            events.push(Event::EndKyoku);
            proof {
                assert(events@.take(start.len() as int) =~= start);
                let tail = events@.skip(start.len() as int);
                assert forall|j: int| 0 <= j < tail.len() implies same_event(
                    #[trigger] tail[j],
                    want[j],
                ) by {
                    assert(tail[j] == events@[start.len() + j]);
                }
            }
        },
        EndStatus::Ryukyoku { score_deltas } => {
            events.push(Event::Ryukyoku { deltas: Some(*score_deltas) });
            events.push(Event::EndKyoku);
            proof {
                assert(events@.take(start.len() as int) =~= start);
                assert(events@.skip(start.len() as int) =~= end_events(*kyoku));
            }
        },
    }
}

/// The number of slots of the record of backtracking choices: one per
/// tenhou tile number.
pub const BACKTRACK_SLOTS: usize = 54;

/// How many more times the conversion of a kyoku is tried after its first
/// attempt, each time with the backtracking choices that the last attempt
/// left. It is more than there are backtracking records (three to the 38
/// tile numbers), so it never decides a result: wherever trying again
/// without end would end, it ends within this many (`law_retries_suffice`).
pub const MAX_RETRIES: u64 = 0xFFFF_FFFF_FFFF_FFFF;

/// Where the walk through a kyoku stands: the events so far, how many dora
/// indicators, draws and discards are used, the riichi waiting to be
/// accepted, the last discard and its player, the kans whose new dora is
/// still to come, and the player to act.
pub struct Walk {
    pub events: Seq<Event>,
    pub dora_i: int,
    pub take_i: Seq<int>,
    pub discard_i: Seq<int>,
    pub reach_flag: Option<u8>,
    pub last_dahai: Pai,
    pub last_actor: Option<u8>,
    pub dora_at_discard: bool,
    pub dora_at_tsumo: bool,
    pub actor: int,
}

/// What one step of the walk leads to: the next state and backtracking
/// record, the finished events, or a failure.
pub enum Step {
    Next(Walk, Seq<u8>),
    Done(Seq<Event>),
    Fail(Failure),
}

/// The round wind of a kyoku number (0-based, E1 is 0).
pub open spec fn bakaze_of(kyoku_num: u8) -> Pai {
    if kyoku_num / 4 == 0 {
        Pai::East
    } else if kyoku_num / 4 == 1 {
        Pai::South
    } else if kyoku_num / 4 == 2 {
        Pai::West
    } else {
        Pai::North
    }
}

/// The event that opens a kyoku, with the first dora indicator.
pub open spec fn start_kyoku_event(k: Kyoku) -> Event {
    Event::StartKyoku {
        bakaze: bakaze_of(k.meta.kyoku_num),
        dora_marker: k.dora_indicators@[0],
        kyoku: (k.meta.kyoku_num % 4 + 1) as u8,
        honba: k.meta.honba,
        kyotaku: k.meta.kyotaku,
        oya: (k.meta.kyoku_num % 4) as u8,
        scores: k.scoreboard,
        tehais: [
            k.action_tables[0].haipai,
            k.action_tables[1].haipai,
            k.action_tables[2].haipai,
            k.action_tables[3].haipai,
        ],
    }
}

/// The walk at the start of a kyoku: the dealer acts first.
pub open spec fn start_walk(k: Kyoku) -> Walk {
    Walk {
        events: seq![start_kyoku_event(k)],
        dora_i: 1,
        take_i: seq![0int, 0, 0, 0],
        discard_i: seq![0int, 0, 0, 0],
        reach_flag: None,
        last_dahai: Pai::Unknown,
        last_actor: None,
        dora_at_discard: false,
        dora_at_tsumo: false,
        actor: (k.meta.kyoku_num % 4) as int,
    }
}

/// A call that does not take the last discard, or takes it from another
/// player than the one who made it, or from the caller himself.
pub open spec fn naki_mismatch(take: Event, last_dahai: Pai, last_actor: Option<u8>, actor: u8) -> bool {
    match take.spec_naki_info() {
        Some((target, pai)) => pai != last_dahai || match last_actor {
            Some(la) => la != target || la == actor,
            None => false,
        },
        None => false,
    }
}

/// Every player has used all his draws.
pub open spec fn all_takes_done(ts: Seq<Seq<Event>>, take_i: Seq<int>) -> bool {
    forall|b: int| 0 <= b < 4 ==> take_i[b] >= #[trigger] ts[b].len()
}

/// The event is a discard of `p`.
pub open spec fn is_dahai_of(e: Event, p: Pai) -> bool {
    &&& e matches Event::Dahai { pai, .. }
    &&& pai == p
}

/// The player's discards from `from` on hold a discard of `p`.
pub open spec fn dahai_ahead(d: Seq<Event>, from: int, p: Pai) -> bool {
    exists|j: int| from <= j < d.len() && #[trigger] is_dahai_of(d[j], p)
}

/// The priority of player `b`'s next draw as a call on the last discard of
/// the player to act, if it is one.
pub open spec fn call_on_last(ts: Seq<Seq<Event>>, w: Walk, b: int) -> Option<int> {
    if b != w.actor && w.take_i[b] < ts[b].len() && ts[b][w.take_i[b]].spec_naki_info() == Some(
        (w.actor as u8, w.last_dahai),
    ) {
        Some(ts[b][w.take_i[b]].spec_naki_ord())
    } else {
        None
    }
}

/// The caller of the last discard with the highest priority among players
/// `b..4`, the later player winning a tie, given the best so far.
pub open spec fn best_caller(ts: Seq<Seq<Event>>, w: Walk, b: int, best: Option<(int, int)>) -> Option<
    (int, int),
>
    decreases 4 - b,
{
    if b >= 4 {
        best
    } else {
        let next = match call_on_last(ts, w, b) {
            Some(o) => match best {
                Some((_, bo)) => if o >= bo {
                    Some((b, o))
                } else {
                    best
                },
                None => Some((b, o)),
            },
            None => best,
        };
        best_caller(ts, w, b + 1, next)
    }
}

/// Whether the call of `c` is taken as made on the last discard, and the
/// backtracking record after the choice: where the discarder discards the
/// same tile again later, the first attempt takes the call here, the next
/// one takes it later, and a third drops the choice.
pub open spec fn decide(ds: Seq<Seq<Event>>, w: Walk, bt: Seq<u8>, c: int) -> (Option<int>, Seq<u8>) {
    let a = w.actor;
    if w.discard_i[a] >= ds[a].len() || !dahai_ahead(ds[a], w.discard_i[a], w.last_dahai) {
        (Some(c), bt)
    } else {
        let key = w.last_dahai.id() as int;
        if bt[key] == 0 {
            (Some(c), bt.update(key, 1))
        } else if bt[key] == 1 {
            (None, bt.update(key, 2))
        } else {
            (None, bt.update(key, 0))
        }
    }
}

/// The next player to act after a discard, and the backtracking record:
/// the caller of the discard, else the next seat.
pub open spec fn next_actor(ts: Seq<Seq<Event>>, ds: Seq<Seq<Event>>, w: Walk, bt: Seq<u8>) -> (
    int,
    Seq<u8>,
) {
    let shimocha = (w.actor + 1) % 4;
    match best_caller(ts, w, 0, None) {
        None => (shimocha, bt),
        Some((c, _)) => {
            let (o, bt2) = decide(ds, w, bt, c);
            match o {
                Some(x) => (x, bt2),
                None => (shimocha, bt2),
            }
        },
    }
}

/// The part of a step after the draw: the discard (with a riichi, its
/// discard too), the new dora of an earlier kan, and the choice of who
/// acts next; the kyoku ends where the player has no discard left or
/// nobody has a draw left.
pub open spec fn discard_part(
    k: Kyoku,
    ts: Seq<Seq<Event>>,
    ds: Seq<Seq<Event>>,
    w: Walk,
    bt: Seq<u8>,
) -> Step {
    let a = w.actor;
    let kn = k.meta.kyoku_num;
    let hb = k.meta.honba;
    let dora = k.dora_indicators@;
    if w.discard_i[a] >= ds[a].len() {
        Step::Done(w.events + end_events(k))
    } else {
        let d = ds[a][w.discard_i[a]];
        let dsi = w.discard_i.update(a, w.discard_i[a] + 1);
        let ld = match d {
            Event::Dahai { pai, .. } => pai,
            _ => w.last_dahai,
        };
        let ev = w.events.push(d);
        let kan_dora_now = w.dora_at_discard && (d is Dahai || d is Ankan);
        if kan_dora_now && w.dora_i >= dora.len() {
            Step::Fail(Failure::InsufficientDoraIndicators { kyoku: kn, honba: hb })
        } else {
            let ev2 = if kan_dora_now {
                ev.push(Event::Dora { dora_marker: dora[w.dora_i] })
            } else {
                ev
            };
            let di2 = if kan_dora_now {
                w.dora_i + 1
            } else {
                w.dora_i
            };
            let atd = w.dora_at_discard && !kan_dora_now;
            let att = if w.dora_at_discard && d is Kakan {
                true
            } else {
                w.dora_at_tsumo
            };
            if d is Reach && dsi[a] >= ds[a].len() {
                Step::Fail(Failure::InsufficientDiscards { kyoku: kn, honba: hb, actor: a as u8 })
            } else {
                let dh = ds[a][dsi[a]];
                let ev3 = if d is Reach {
                    ev2.push(dh)
                } else {
                    ev2
                };
                let dsi2 = if d is Reach {
                    dsi.update(a, dsi[a] + 1)
                } else {
                    dsi
                };
                let ld2 = if d is Reach {
                    match dh {
                        Event::Dahai { pai, .. } => pai,
                        _ => ld,
                    }
                } else {
                    ld
                };
                let rf = if d is Reach {
                    Some(a as u8)
                } else {
                    None
                };
                let w2 = Walk {
                    events: ev3,
                    dora_i: di2,
                    discard_i: dsi2,
                    last_dahai: ld2,
                    reach_flag: rf,
                    dora_at_discard: atd,
                    dora_at_tsumo: att,
                    ..w
                };
                if all_takes_done(ts, w2.take_i) {
                    Step::Done(ev3 + end_events(k))
                } else if d is Ankan {
                    if di2 >= dora.len() {
                        Step::Fail(Failure::InsufficientDoraIndicators { kyoku: kn, honba: hb })
                    } else {
                        Step::Next(
                            Walk {
                                events: ev3.push(Event::Dora { dora_marker: dora[di2] }),
                                dora_i: di2 + 1,
                                ..w2
                            },
                            bt,
                        )
                    }
                } else if d is Kakan {
                    Step::Next(Walk { dora_at_discard: true, ..w2 }, bt)
                } else {
                    let (na, bt2) = next_actor(ts, ds, w2, bt);
                    Step::Next(Walk { last_actor: Some(a as u8), actor: na, ..w2 }, bt2)
                }
            }
        }
    }
}

/// One step of the walk: the player to act draws or calls (a riichi made
/// just before is accepted, an open kan asks for a new dora and for the
/// next draw), then discards.
pub open spec fn step(k: Kyoku, ts: Seq<Seq<Event>>, ds: Seq<Seq<Event>>, w: Walk, bt: Seq<u8>) -> Step {
    let a = w.actor;
    let kn = k.meta.kyoku_num;
    let hb = k.meta.honba;
    let dora = k.dora_indicators@;
    if w.take_i[a] >= ts[a].len() {
        Step::Fail(Failure::InsufficientTakes { kyoku: kn, honba: hb, actor: a as u8 })
    } else {
        let take = ts[a][w.take_i[a]];
        let ti = w.take_i.update(a, w.take_i[a] + 1);
        if naki_mismatch(take, w.last_dahai, w.last_actor, a as u8) {
            Step::Fail(
                Failure::UnexpectedNaki {
                    action: take,
                    last_dahai: w.last_dahai,
                    last_actor: w.last_actor,
                    kyoku: kn,
                    honba: hb,
                    actor: a as u8,
                },
            )
        } else {
            let ev0 = match w.reach_flag {
                Some(r) => w.events.push(Event::ReachAccepted { actor: r }),
                None => w.events,
            };
            let needs_dora = if take is Daiminkan {
                w.dora_at_discard
            } else {
                take is Tsumo && w.dora_at_tsumo
            };
            if needs_dora && w.dora_i >= dora.len() {
                Step::Fail(Failure::InsufficientDoraIndicators { kyoku: kn, honba: hb })
            } else {
                let ev1 = if needs_dora {
                    ev0.push(Event::Dora { dora_marker: dora[w.dora_i] })
                } else {
                    ev0
                };
                let di1 = if needs_dora {
                    w.dora_i + 1
                } else {
                    w.dora_i
                };
                if take is Daiminkan {
                    Step::Next(
                        Walk {
                            events: ev1.push(take),
                            dora_i: di1,
                            take_i: ti,
                            reach_flag: None,
                            dora_at_discard: true,
                            ..w
                        },
                        bt,
                    )
                } else {
                    let att = if needs_dora {
                        false
                    } else {
                        w.dora_at_tsumo
                    };
                    discard_part(
                        k,
                        ts,
                        ds,
                        Walk {
                            events: ev1.push(take),
                            dora_i: di1,
                            take_i: ti,
                            reach_flag: None,
                            dora_at_tsumo: att,
                            ..w
                        },
                        bt,
                    )
                }
            }
        }
    }
}

/// The draws still to come.
pub open spec fn takes_left(ts: Seq<Seq<Event>>, take_i: Seq<int>) -> int {
    (ts[0].len() - take_i[0]) + (ts[1].len() - take_i[1]) + (ts[2].len() - take_i[2]) + (
    ts[3].len() - take_i[3])
}

/// Walks the kyoku from `w` for at most `fuel` steps: the events, or the
/// failure, and the backtracking record at the end.
pub open spec fn walk(
    k: Kyoku,
    ts: Seq<Seq<Event>>,
    ds: Seq<Seq<Event>>,
    w: Walk,
    bt: Seq<u8>,
    fuel: nat,
) -> (Result<Seq<Event>, Failure>, Seq<u8>)
    decreases fuel,
{
    if fuel == 0 {
        (Err(Failure::InsufficientTakes { kyoku: k.meta.kyoku_num, honba: k.meta.honba, actor: w.actor as u8 }), bt)
    } else {
        match step(k, ts, ds, w, bt) {
            Step::Next(w2, bt2) => walk(k, ts, ds, w2, bt2, (fuel - 1) as nat),
            Step::Done(evs) => (Ok(evs), bt),
            Step::Fail(f) => (Err(f), bt),
        }
    }
}

/// One attempt at a kyoku with the given backtracking record; each step
/// uses a draw, so it has at most as many steps as there are draws.
pub open spec fn attempt(k: Kyoku, ts: Seq<Seq<Event>>, ds: Seq<Seq<Event>>, bt: Seq<u8>) -> (
    Result<Seq<Event>, Failure>,
    Seq<u8>,
) {
    if k.dora_indicators@.len() == 0 {
        (
            Err(Failure::InsufficientDoraIndicators { kyoku: k.meta.kyoku_num, honba: k.meta.honba }),
            bt,
        )
    } else {
        walk(k, ts, ds, start_walk(k), bt, (takes_left(ts, seq![0int, 0, 0, 0]) + 1) as nat)
    }
}

/// No backtracking choice is pending.
pub open spec fn no_choices(bt: Seq<u8>) -> bool {
    forall|i: int| 0 <= i < bt.len() ==> bt[i] == 0
}

/// The attempts at a kyoku: the first that succeeds, else the first
/// failure once no choice is pending or `n` more attempts are used up.
#[verifier::opaque]
pub open spec fn retry(
    k: Kyoku,
    ts: Seq<Seq<Event>>,
    ds: Seq<Seq<Event>>,
    bt: Seq<u8>,
    n: nat,
    first: Option<Failure>,
) -> Result<Seq<Event>, Failure>
    decreases n,
{
    let (r, bt2) = attempt(k, ts, ds, bt);
    match r {
        Ok(evs) => Ok(evs),
        Err(e) => {
            let f = match first {
                Some(x) => x,
                None => e,
            };
            if no_choices(bt2) || n == 0 {
                Err(f)
            } else {
                retry(k, ts, ds, bt2, (n - 1) as nat, Some(f))
            }
        },
    }
}

/// The four players' event lists.
pub open spec fn lists_of(v: [Vec<Event>; 4]) -> Seq<Seq<Event>> {
    seq![v[0]@, v[1]@, v[2]@, v[3]@]
}

/// The counters of a walk stay within the lists they count through.
pub open spec fn walk_ok(k: Kyoku, ts: Seq<Seq<Event>>, ds: Seq<Seq<Event>>, w: Walk) -> bool {
    &&& ts.len() == 4
    &&& ds.len() == 4
    &&& w.take_i.len() == 4
    &&& w.discard_i.len() == 4
    &&& 0 <= w.actor < 4
    &&& forall|b: int| 0 <= b < 4 ==> 0 <= #[trigger] w.take_i[b] <= ts[b].len()
    &&& forall|b: int| 0 <= b < 4 ==> 0 <= #[trigger] w.discard_i[b] <= ds[b].len()
    &&& 0 <= w.dora_i <= k.dora_indicators@.len()
}

/// The caller chosen among players `b..4` is one of them or the best so
/// far.
proof fn lemma_best_caller_range(ts: Seq<Seq<Event>>, w: Walk, b: int, best: Option<(int, int)>)
    requires
        0 <= b,
        best matches Some((c, _)) ==> 0 <= c < 4,
    ensures
        best_caller(ts, w, b, best) matches Some((c, _)) ==> 0 <= c < 4,
    decreases 4 - b,
{
    if b < 4 {
        let next = match call_on_last(ts, w, b) {
            Some(o) => match best {
                Some((_, bo)) => if o >= bo {
                    Some((b, o))
                } else {
                    best
                },
                None => Some((b, o)),
            },
            None => best,
        };
        lemma_best_caller_range(ts, w, b + 1, next);
    }
}

/// The next player is a seat, and the backtracking record keeps its size.
proof fn lemma_next_actor_range(ts: Seq<Seq<Event>>, ds: Seq<Seq<Event>>, w: Walk, bt: Seq<u8>)
    requires
        0 <= w.actor < 4,
        bt.len() == BACKTRACK_SLOTS,
    ensures
        0 <= next_actor(ts, ds, w, bt).0 < 4,
        next_actor(ts, ds, w, bt).1.len() == bt.len(),
{
    lemma_best_caller_range(ts, w, 0, None);
    assert(w.last_dahai.id() < 54);
}

/// A step that goes on uses one draw and keeps the counters within their
/// lists.
proof fn lemma_step_progress(k: Kyoku, ts: Seq<Seq<Event>>, ds: Seq<Seq<Event>>, w: Walk, bt: Seq<u8>)
    requires
        walk_ok(k, ts, ds, w),
        bt.len() == BACKTRACK_SLOTS,
    ensures
        step(k, ts, ds, w, bt) matches Step::Next(w2, bt2) ==> {
            &&& walk_ok(k, ts, ds, w2)
            &&& takes_left(ts, w2.take_i) == takes_left(ts, w.take_i) - 1
            &&& bt2.len() == bt.len()
        },
{
    assert forall|w3: Walk, bt3: Seq<u8>|
        0 <= w3.actor < 4 && bt3.len() == BACKTRACK_SLOTS implies 0 <= #[trigger] next_actor(
            ts,
            ds,
            w3,
            bt3,
        ).0 < 4 && next_actor(ts, ds, w3, bt3).1.len() == bt3.len() by {
        lemma_next_actor_range(ts, ds, w3, bt3);
    }
    if let Step::Next(w2, bt2) = step(k, ts, ds, w, bt) {
        let a = w.actor;
        assert(w.take_i[a] < ts[a].len());
        let ti = w.take_i.update(a, w.take_i[a] + 1);
        assert(w2.take_i == ti);
        assert forall|b: int| 0 <= b < 4 implies 0 <= #[trigger] w2.take_i[b] <= ts[b].len() by {
            assert(0 <= w.take_i[b] <= ts[b].len());
        }
        assert forall|b: int| 0 <= b < 4 implies 0 <= #[trigger] w2.discard_i[b] <= ds[b].len() by {
            assert(0 <= w.discard_i[b] <= ds[b].len());
        }
    }
}

/// A copy of four counters with the one at `a` moved on by one.
fn bump(c: [usize; 4], a: usize) -> (r: [usize; 4])
    requires
        a < 4,
        c[a as int] < usize::MAX,
    ensures
        r@ == c@.update(a as int, (c[a as int] + 1) as usize),
{
    let r = if a == 0 {
        [c[0] + 1, c[1], c[2], c[3]]
    } else if a == 1 {
        [c[0], c[1] + 1, c[2], c[3]]
    } else if a == 2 {
        [c[0], c[1], c[2] + 1, c[3]]
    } else {
        [c[0], c[1], c[2], c[3] + 1]
    };
    proof {
        assert(r@ =~= c@.update(a as int, (c[a as int] + 1) as usize));
    }
    r
}

/// Where the walk through a kyoku stands, as the conversion holds it.
struct WalkState {
    events: Vec<Event>,
    dora_i: usize,
    take_i: [usize; 4],
    discard_i: [usize; 4],
    reach_flag: Option<u8>,
    last_dahai: Pai,
    last_actor: Option<u8>,
    dora_at_discard: bool,
    dora_at_tsumo: bool,
    actor: usize,
}

/// Four counters as integers.
spec fn counters(c: [usize; 4]) -> Seq<int> {
    seq![c[0] as int, c[1] as int, c[2] as int, c[3] as int]
}

/// The state holds what the walk says, its events told apart only by
/// `same_event`.
spec fn agrees(st: WalkState, w: Walk) -> bool {
    &&& same_events(st.events@, w.events)
    &&& st.dora_i == w.dora_i
    &&& counters(st.take_i) == w.take_i
    &&& counters(st.discard_i) == w.discard_i
    &&& st.reach_flag == w.reach_flag
    &&& st.last_dahai == w.last_dahai
    &&& st.last_actor == w.last_actor
    &&& st.dora_at_discard == w.dora_at_discard
    &&& st.dora_at_tsumo == w.dora_at_tsumo
    &&& st.actor == w.actor
}

/// What one step of the walk led to.
enum StepOut {
    Next,
    Done,
    Fail(ConvertError),
}

/// Pushing events that say the same keeps two lists saying the same.
proof fn lemma_same_events_push(a: Seq<Event>, b: Seq<Event>, x: Event, y: Event)
    requires
        same_events(a, b),
        same_event(x, y),
    ensures
        same_events(a.push(x), b.push(y)),
{
    assert forall|i: int| 0 <= i < a.len() + 1 implies same_event(#[trigger] a.push(x)[i], b.push(y)[i]) by {
        if i < a.len() {
            assert(same_event(a[i], b[i]));
        }
    }
}

/// Appending lists that say the same keeps two lists saying the same.
proof fn lemma_same_events_concat(a: Seq<Event>, b: Seq<Event>, c: Seq<Event>, d: Seq<Event>)
    requires
        same_events(a, b),
        same_events(c, d),
    ensures
        same_events(a + c, b + d),
{
    assert forall|i: int| 0 <= i < a.len() + c.len() implies same_event(#[trigger] (a + c)[i], (b + d)[i]) by {
        if i < a.len() {
            assert(same_event(a[i], b[i]));
        } else {
            assert(same_event(c[i - a.len()], d[i - a.len()]));
        }
    }
}

/// An event says the same as itself.
proof fn lemma_same_event_refl(x: Event)
    ensures
        same_event(x, x),
{
}

/// Appends the closing events of the kyoku to the walk's events.
fn finish(st: &mut WalkState, kyoku: &Kyoku, Ghost(evs): Ghost<Seq<Event>>)
    requires
        same_events(old(st).events@, evs),
    ensures
        same_events(final(st).events@, evs + end_events(*kyoku)),
{
    let ghost before = st.events@;
    end_kyoku(&mut st.events, kyoku);
    proof {
        let after = st.events@;
        assert(after =~= after.take(before.len() as int) + after.skip(before.len() as int));
        lemma_same_events_concat(before, evs, after.skip(before.len() as int), end_events(*kyoku));
    }
}

/// Whether the discards from `from` on hold a discard of `p`.
fn dahai_ahead_exec(d: &Vec<Event>, from: usize, p: Pai) -> (r: bool)
    ensures
        r == dahai_ahead(d@, from as int, p),
{
    let mut j = from;
    while j < d.len()
        invariant
            from <= j,
            forall|x: int| from <= x < j && x < d@.len() ==> !#[trigger] is_dahai_of(d@[x], p),
        decreases d@.len() - j,
    {
        if let Event::Dahai { pai, .. } = &d[j] {
            if *pai == p {
                assert(is_dahai_of(d@[j as int], p));
                return true;
            }
        }
        assert(!is_dahai_of(d@[j as int], p));
        j = j + 1;
    }
    false
}

/// The priority of player `b`'s next draw as a call on the last discard.
fn call_on_last_exec(ts: &[Vec<Event>; 4], st: &WalkState, b: usize, Ghost(w): Ghost<Walk>) -> (r: Option<isize>)
    requires
        b < 4,
        agrees(*st, w),
        st.actor < 4,
    ensures
        match call_on_last(lists_of(*ts), w, b as int) {
            Some(o) => r == Some(o as isize),
            None => r is None,
        },
{
    if b == st.actor || st.take_i[b] >= ts[b].len() {
        return None;
    }
    let take = &ts[b][st.take_i[b]];
    match take.naki_info() {
        Some((target, pai)) => {
            if target == st.actor as u8 && pai == st.last_dahai {
                Some(take.naki_to_ord())
            } else {
                None
            }
        },
        None => None,
    }
}

/// The player to act after the last discard, and the backtracking record
/// after the choice.
fn next_actor_exec(
    ts: &[Vec<Event>; 4],
    ds: &[Vec<Event>; 4],
    st: &WalkState,
    bt: &mut Vec<u8>,
    Ghost(w): Ghost<Walk>,
) -> (r: usize)
    requires
        agrees(*st, w),
        st.actor < 4,
        old(bt)@.len() == BACKTRACK_SLOTS,
    ensures
        (r as int, final(bt)@) == next_actor(lists_of(*ts), lists_of(*ds), w, old(bt)@),
{
    let a = st.actor;
    let mut best: Option<(usize, isize)> = None;
    let mut b: usize = 0;
    while b < 4
        invariant
            b <= 4,
            agrees(*st, w),
            st.actor < 4,
            best_caller(lists_of(*ts), w, 0, None) == best_caller(
                lists_of(*ts),
                w,
                b as int,
                match best {
                    Some((c, o)) => Some((c as int, o as int)),
                    None => None,
                },
            ),
        decreases 4 - b,
    {
        match call_on_last_exec(ts, st, b, Ghost(w)) {
            Some(o) => {
                match best {
                    Some((_, bo)) => {
                        if o >= bo {
                            best = Some((b, o));
                        }
                    },
                    None => {
                        best = Some((b, o));
                    },
                }
            },
            None => {},
        }
        b = b + 1;
    }
    let shimocha = (a + 1) % 4;
    match best {
        None => shimocha,
        Some((c, _)) => {
            if st.discard_i[a] >= ds[a].len() {
                return c;
            }
            if !dahai_ahead_exec(&ds[a], st.discard_i[a], st.last_dahai) {
                return c;
            }
            let key = st.last_dahai.as_usize();
            assert(st.last_dahai.id() < 54);
            let v = bt[key];
            if v == 0 {
                bt.set(key, 1);
                c
            } else if v == 1 {
                bt.set(key, 2);
                shimocha
            } else {
                bt.set(key, 0);
                shimocha
            }
        },
    }
}

/// The part of a step after the draw.
#[verifier::spinoff_prover]
#[verifier::rlimit(40)]
fn discard_part_exec(
    kyoku: &Kyoku,
    ts: &[Vec<Event>; 4],
    ds: &[Vec<Event>; 4],
    st: &mut WalkState,
    bt: &mut Vec<u8>,
    Ghost(w): Ghost<Walk>,
) -> (r: StepOut)
    requires
        agrees(*old(st), w),
        walk_ok(*kyoku, lists_of(*ts), lists_of(*ds), w),
        old(bt)@.len() == BACKTRACK_SLOTS,
    ensures
        final(bt)@.len() == BACKTRACK_SLOTS,
        match discard_part(*kyoku, lists_of(*ts), lists_of(*ds), w, old(bt)@) {
            Step::Next(w2, bt2) => r is Next && agrees(*final(st), w2) && final(bt)@ == bt2,
            Step::Done(evs) => r is Done && same_events(final(st).events@, evs) && final(bt)@
                == old(bt)@,
            Step::Fail(f) => r matches StepOut::Fail(e) && fail_matches(e, f) && final(bt)@
                == old(bt)@,
        },
{
    let ghost tsv = lists_of(*ts);
    let ghost dsv = lists_of(*ds);
    let ghost bt0 = bt@;
    let a = st.actor;
    let kn = kyoku.meta.kyoku_num;
    let hb = kyoku.meta.honba;
    if st.discard_i[a] >= ds[a].len() {
        finish(st, kyoku, Ghost(w.events));
        return StepOut::Done;
    }
    let d = &ds[a][st.discard_i[a]];
    let ghost dv = dsv[a as int][w.discard_i[a as int]];
    assert(*d == dv);
    let is_dahai = matches!(d, Event::Dahai { .. });
    let is_ankan = matches!(d, Event::Ankan { .. });
    let is_kakan = matches!(d, Event::Kakan { .. });
    let is_reach = matches!(d, Event::Reach { .. });
    st.discard_i = bump(st.discard_i, a);
    if let Event::Dahai { pai, .. } = d {
        st.last_dahai = *pai;
    }
    let copy = d.duplicate();
    let ghost ev_before = st.events@;
    st.events.push(copy);
    proof {
        lemma_same_events_push(ev_before, w.events, copy, dv);
    }
    let ghost ev = w.events.push(dv);
    let had = st.dora_at_discard;
    let kan_dora_now = had && (is_dahai || is_ankan);
    if kan_dora_now {
        if st.dora_i >= kyoku.dora_indicators.len() {
            return StepOut::Fail(ConvertError::InsufficientDoraIndicators { kyoku: kn, honba: hb });
        }
        let marker = kyoku.dora_indicators[st.dora_i];
        let ghost b2 = st.events@;
        st.events.push(Event::Dora { dora_marker: marker });
        proof {
            lemma_same_event_refl(Event::Dora { dora_marker: marker });
            lemma_same_events_push(b2, ev, Event::Dora { dora_marker: marker }, Event::Dora { dora_marker: marker });
        }
        st.dora_i = st.dora_i + 1;
    }
    let ghost ev2 = if kan_dora_now {
        ev.push(Event::Dora { dora_marker: kyoku.dora_indicators@[w.dora_i] })
    } else {
        ev
    };
    st.dora_at_discard = had && !kan_dora_now;
    if had && is_kakan {
        st.dora_at_tsumo = true;
    }
    if is_reach {
        if st.discard_i[a] >= ds[a].len() {
            return StepOut::Fail(
                ConvertError::InsufficientDiscards { kyoku: kn, honba: hb, actor: a as u8 },
            );
        }
        let dh = &ds[a][st.discard_i[a]];
        st.discard_i = bump(st.discard_i, a);
        if let Event::Dahai { pai, .. } = dh {
            st.last_dahai = *pai;
        }
        let copy2 = dh.duplicate();
        let ghost b3 = st.events@;
        st.events.push(copy2);
        proof {
            lemma_same_events_push(b3, ev2, copy2, *dh);
        }
        st.reach_flag = Some(a as u8);
    } else {
        st.reach_flag = None;
    }
    let ghost dsi = w.discard_i.update(a as int, w.discard_i[a as int] + 1);
    let ghost dh_spec = dsv[a as int][dsi[a as int]];
    let ghost ev3 = if is_reach {
        ev2.push(dh_spec)
    } else {
        ev2
    };
    let ghost dsi2 = if is_reach {
        dsi.update(a as int, dsi[a as int] + 1)
    } else {
        dsi
    };
    assert(counters(st.discard_i) =~= dsi2);
    let ghost w2 = Walk {
        events: ev3,
        dora_i: st.dora_i as int,
        discard_i: dsi2,
        last_dahai: st.last_dahai,
        reach_flag: st.reach_flag,
        dora_at_discard: st.dora_at_discard,
        dora_at_tsumo: st.dora_at_tsumo,
        ..w
    };
    assert(agrees(*st, w2));
    if st.take_i[0] >= ts[0].len() && st.take_i[1] >= ts[1].len() && st.take_i[2] >= ts[2].len()
        && st.take_i[3] >= ts[3].len() {
        proof {
            assert(all_takes_done(tsv, w2.take_i));
        }
        finish(st, kyoku, Ghost(ev3));
        return StepOut::Done;
    }
    proof {
        if all_takes_done(tsv, w2.take_i) {
            assert(w2.take_i[0] >= tsv[0].len());
            assert(w2.take_i[1] >= tsv[1].len());
            assert(w2.take_i[2] >= tsv[2].len());
            assert(w2.take_i[3] >= tsv[3].len());
        }
    }
    if is_ankan {
        if st.dora_i >= kyoku.dora_indicators.len() {
            return StepOut::Fail(ConvertError::InsufficientDoraIndicators { kyoku: kn, honba: hb });
        }
        let marker = kyoku.dora_indicators[st.dora_i];
        let ghost b4 = st.events@;
        st.events.push(Event::Dora { dora_marker: marker });
        proof {
            lemma_same_event_refl(Event::Dora { dora_marker: marker });
            lemma_same_events_push(b4, ev3, Event::Dora { dora_marker: marker }, Event::Dora { dora_marker: marker });
        }
        st.dora_i = st.dora_i + 1;
        return StepOut::Next;
    }
    if is_kakan {
        st.dora_at_discard = true;
        return StepOut::Next;
    }
    let na = next_actor_exec(ts, ds, st, bt, Ghost(w2));
    st.last_actor = Some(a as u8);
    st.actor = na;
    proof {
        lemma_next_actor_range(tsv, dsv, w2, bt0);
    }
    StepOut::Next
}

/// One step of the walk.
#[verifier::spinoff_prover]
#[verifier::rlimit(40)]
fn step_exec(
    kyoku: &Kyoku,
    ts: &[Vec<Event>; 4],
    ds: &[Vec<Event>; 4],
    st: &mut WalkState,
    bt: &mut Vec<u8>,
    Ghost(w): Ghost<Walk>,
) -> (r: StepOut)
    requires
        agrees(*old(st), w),
        walk_ok(*kyoku, lists_of(*ts), lists_of(*ds), w),
        old(bt)@.len() == BACKTRACK_SLOTS,
    ensures
        final(bt)@.len() == BACKTRACK_SLOTS,
        match step(*kyoku, lists_of(*ts), lists_of(*ds), w, old(bt)@) {
            Step::Next(w2, bt2) => r is Next && agrees(*final(st), w2) && final(bt)@ == bt2,
            Step::Done(evs) => r is Done && same_events(final(st).events@, evs) && final(bt)@
                == old(bt)@,
            Step::Fail(f) => r matches StepOut::Fail(e) && fail_matches(e, f) && final(bt)@
                == old(bt)@,
        },
{
    let ghost tsv = lists_of(*ts);
    let a = st.actor;
    let kn = kyoku.meta.kyoku_num;
    let hb = kyoku.meta.honba;
    if st.take_i[a] >= ts[a].len() {
        return StepOut::Fail(ConvertError::InsufficientTakes { kyoku: kn, honba: hb, actor: a as u8 });
    }
    let take = &ts[a][st.take_i[a]];
    let ghost tv = tsv[a as int][w.take_i[a as int]];
    assert(*take == tv);
    let mismatch = match take.naki_info() {
        Some((target, pai)) => pai != st.last_dahai || match st.last_actor {
            Some(la) => la != target || la == a as u8,
            None => false,
        },
        None => false,
    };
    if mismatch {
        return StepOut::Fail(
            ConvertError::UnexpectedNaki {
                action: take.duplicate(),
                last_dahai: st.last_dahai,
                last_actor: st.last_actor,
                kyoku: kn,
                honba: hb,
                actor: a as u8,
            },
        );
    }
    st.take_i = bump(st.take_i, a);
    let ghost ti = w.take_i.update(a as int, w.take_i[a as int] + 1);
    assert(counters(st.take_i) =~= ti);
    if let Some(r) = st.reach_flag {
        let ghost b0 = st.events@;
        st.events.push(Event::ReachAccepted { actor: r });
        proof {
            lemma_same_events_push(b0, w.events, Event::ReachAccepted { actor: r }, Event::ReachAccepted { actor: r });
        }
    }
    st.reach_flag = None;
    let ghost ev0 = match w.reach_flag {
        Some(r) => w.events.push(Event::ReachAccepted { actor: r }),
        None => w.events,
    };
    let is_daiminkan = matches!(take, Event::Daiminkan { .. });
    let is_tsumo = matches!(take, Event::Tsumo { .. });
    let needs_dora = if is_daiminkan {
        st.dora_at_discard
    } else {
        is_tsumo && st.dora_at_tsumo
    };
    if needs_dora {
        if st.dora_i >= kyoku.dora_indicators.len() {
            return StepOut::Fail(ConvertError::InsufficientDoraIndicators { kyoku: kn, honba: hb });
        }
        let marker = kyoku.dora_indicators[st.dora_i];
        let ghost b1 = st.events@;
        st.events.push(Event::Dora { dora_marker: marker });
        proof {
            lemma_same_events_push(b1, ev0, Event::Dora { dora_marker: marker }, Event::Dora { dora_marker: marker });
        }
        st.dora_i = st.dora_i + 1;
    }
    let ghost ev1 = if needs_dora {
        ev0.push(Event::Dora { dora_marker: kyoku.dora_indicators@[w.dora_i] })
    } else {
        ev0
    };
    let copy = take.duplicate();
    let ghost b2 = st.events@;
    st.events.push(copy);
    proof {
        lemma_same_events_push(b2, ev1, copy, tv);
    }
    if is_daiminkan {
        st.dora_at_discard = true;
        return StepOut::Next;
    }
    if needs_dora {
        st.dora_at_tsumo = false;
    }
    let ghost w1 = Walk {
        events: ev1.push(tv),
        dora_i: st.dora_i as int,
        take_i: ti,
        reach_flag: None,
        dora_at_tsumo: st.dora_at_tsumo,
        ..w
    };
    proof {
        assert forall|b: int| 0 <= b < 4 implies 0 <= #[trigger] w1.take_i[b] <= tsv[b].len() by {
            assert(0 <= w.take_i[b] <= tsv[b].len());
        }
    }
    discard_part_exec(kyoku, ts, ds, st, bt, Ghost(w1))
}

/// One attempt at converting a kyoku with the given backtracking record.
fn attempt_exec(kyoku: &Kyoku, ts: &[Vec<Event>; 4], ds: &[Vec<Event>; 4], bt: &mut Vec<u8>) -> (r: Result<
    Vec<Event>,
    ConvertError,
>)
    requires
        old(bt)@.len() == BACKTRACK_SLOTS,
    ensures
        final(bt)@.len() == BACKTRACK_SLOTS,
        final(bt)@ == attempt(*kyoku, lists_of(*ts), lists_of(*ds), old(bt)@).1,
        match attempt(*kyoku, lists_of(*ts), lists_of(*ds), old(bt)@).0 {
            Ok(evs) => r matches Ok(v) && same_events(v@, evs),
            Err(f) => r matches Err(e) && fail_matches(e, f),
        },
{
    let ghost tsv = lists_of(*ts);
    let ghost dsv = lists_of(*ds);
    if kyoku.dora_indicators.len() == 0 {
        return Err(
            ConvertError::InsufficientDoraIndicators {
                kyoku: kyoku.meta.kyoku_num,
                honba: kyoku.meta.honba,
            },
        );
    }
    let kn = kyoku.meta.kyoku_num;
    let oya = kn % 4;
    let bakaze = if kn / 4 == 0 {
        Pai::East
    } else if kn / 4 == 1 {
        Pai::South
    } else if kn / 4 == 2 {
        Pai::West
    } else {
        Pai::North
    };
    let start = Event::StartKyoku {
        bakaze,
        kyoku: oya + 1,
        honba: kyoku.meta.honba,
        kyotaku: kyoku.meta.kyotaku,
        dora_marker: kyoku.dora_indicators[0],
        oya,
        scores: kyoku.scoreboard,
        tehais: [
            kyoku.action_tables[0].haipai,
            kyoku.action_tables[1].haipai,
            kyoku.action_tables[2].haipai,
            kyoku.action_tables[3].haipai,
        ],
    };
    let mut events: Vec<Event> = Vec::new();
    events.push(start);
    let mut st = WalkState {
        events,
        dora_i: 1,
        take_i: [0, 0, 0, 0],
        discard_i: [0, 0, 0, 0],
        reach_flag: None,
        last_dahai: Pai::Unknown,
        last_actor: None,
        dora_at_discard: false,
        dora_at_tsumo: false,
        actor: oya as usize,
    };
    let ghost w0 = start_walk(*kyoku);
    let ghost bt0 = bt@;
    let ghost fuel0: nat = (takes_left(tsv, seq![0int, 0, 0, 0]) + 1) as nat;
    let ghost mut w = w0;
    let ghost mut fuel: nat = fuel0;
    proof {
        assert(start == start_kyoku_event(*kyoku));
        lemma_same_event_refl(start);
        assert(st.events@ =~= seq![start]);
        assert(counters(st.take_i) =~= w0.take_i);
        assert(counters(st.discard_i) =~= w0.discard_i);
        assert(w0.take_i =~= seq![0int, 0, 0, 0]);
    }
    loop
        invariant
            agrees(st, w),
            walk_ok(*kyoku, tsv, dsv, w),
            tsv == lists_of(*ts),
            dsv == lists_of(*ds),
            bt@.len() == BACKTRACK_SLOTS,
            0 <= takes_left(tsv, w.take_i) < fuel,
            walk(*kyoku, tsv, dsv, w, bt@, fuel) == walk(*kyoku, tsv, dsv, w0, bt0, fuel0),
            kyoku.dora_indicators@.len() > 0,
            bt0 == old(bt)@,
            w0 == start_walk(*kyoku),
            fuel0 == (takes_left(tsv, seq![0int, 0, 0, 0]) + 1) as nat,
            attempt(*kyoku, tsv, dsv, bt0) == walk(*kyoku, tsv, dsv, w0, bt0, fuel0),
        decreases takes_left(tsv, w.take_i),
    {
        let ghost bt_before = bt@;
        proof {
            lemma_step_progress(*kyoku, tsv, dsv, w, bt_before);
        }
        match step_exec(kyoku, ts, ds, &mut st, bt, Ghost(w)) {
            StepOut::Next => {
                proof {
                    if let Step::Next(w2, bt2) = step(*kyoku, tsv, dsv, w, bt_before) {
                        w = w2;
                        fuel = (fuel - 1) as nat;
                    }
                }
            },
            StepOut::Done => {
                return Ok(st.events);
            },
            StepOut::Fail(e) => {
                return Err(e);
            },
        }
    }
}

/// The draws and discards of players `0..a` of a kyoku as events, read in
/// seat order; the first that cannot be read fails the whole.
pub open spec fn parse_upto(k: Kyoku, a: int) -> Result<(Seq<Seq<Event>>, Seq<Seq<Event>>), Failure>
    decreases a,
{
    if a <= 0 {
        Ok((Seq::empty(), Seq::empty()))
    } else {
        match parse_upto(k, a - 1) {
            Err(f) => Err(f),
            Ok((ts, ds)) => match parse_actor(
                (a - 1) as u8,
                k.action_tables[a - 1].takes@,
                k.action_tables[a - 1].discards@,
            ) {
                Ok((t, d)) => Ok((ts.push(t), ds.push(d))),
                Err(f) => Err(f),
            },
        }
    }
}

/// A backtracking record with no choice in it.
pub open spec fn empty_choices() -> Seq<u8> {
    Seq::new(BACKTRACK_SLOTS as nat, |i: int| 0u8)
}

/// The mjai events of a kyoku: the players' lists are read, then the kyoku
/// is walked, with backtracking over which of two equal discards a call
/// took.
#[verifier::opaque]
pub open spec fn kyoku_events(k: Kyoku) -> Result<Seq<Event>, Failure> {
    match parse_upto(k, 4) {
        Err(f) => Err(f),
        Ok((ts, ds)) => retry(k, ts, ds, empty_choices(), MAX_RETRIES as nat, None),
    }
}

/// The mjai events of the first `i` kyokus of a log, one after another.
pub open spec fn log_events(log: Log, i: int) -> Result<Seq<Event>, Failure>
    decreases i,
{
    if i <= 0 {
        Ok(Seq::empty())
    } else {
        match log_events(log, i - 1) {
            Err(f) => Err(f),
            Ok(es) => match kyoku_events(log.kyokus@[i - 1]) {
                Ok(ks) => Ok(es + ks),
                Err(f) => Err(f),
            },
        }
    }
}

/// The event that opens the game.
pub open spec fn start_game_event(log: Log) -> Event {
    Event::StartGame {
        names: log.names,
        kyoku_first: log.game_length.spec_as_u8(),
        aka_flag: log.has_aka,
    }
}

/// The whole mjai stream of a log: the start of the game, the events of
/// each kyoku, the end of the game.
pub open spec fn mjai_events(log: Log) -> Result<Seq<Event>, Failure> {
    match log_events(log, log.kyokus@.len() as int) {
        Ok(es) => Ok(seq![start_game_event(log)] + es + seq![Event::EndGame]),
        Err(f) => Err(f),
    }
}

/// Whether no backtracking choice is pending.
fn no_choices_exec(bt: &Vec<u8>) -> (r: bool)
    ensures
        r == no_choices(bt@),
{
    let mut i: usize = 0;
    while i < bt.len()
        invariant
            i <= bt@.len(),
            forall|j: int| 0 <= j < i ==> bt@[j] == 0,
        decreases bt@.len() - i,
    {
        if bt[i] != 0 {
            return false;
        }
        i = i + 1;
    }
    true
}

/// Converts one kyoku of a tenhou.net/6 log into mjai events.
fn tenhou_kyoku_to_mjai_events(kyoku: &Kyoku) -> (r: Result<Vec<Event>, ConvertError>)
    ensures
        match kyoku_events(*kyoku) {
            Ok(evs) => r matches Ok(v) && same_events(v@, evs),
            Err(f) => r matches Err(e) && fail_matches(e, f),
        },
{
    proof {
        reveal(kyoku_events);
        reveal_with_fuel(parse_upto, 5);
    }
    let (t0, d0) = match parse_takes_and_discards_to_mjai(
        0,
        &kyoku.action_tables[0].takes,
        &kyoku.action_tables[0].discards,
    ) {
        Ok(x) => x,
        Err(e) => {
            return Err(e);
        },
    };
    let (t1, d1) = match parse_takes_and_discards_to_mjai(
        1,
        &kyoku.action_tables[1].takes,
        &kyoku.action_tables[1].discards,
    ) {
        Ok(x) => x,
        Err(e) => {
            return Err(e);
        },
    };
    let (t2, d2) = match parse_takes_and_discards_to_mjai(
        2,
        &kyoku.action_tables[2].takes,
        &kyoku.action_tables[2].discards,
    ) {
        Ok(x) => x,
        Err(e) => {
            return Err(e);
        },
    };
    let (t3, d3) = match parse_takes_and_discards_to_mjai(
        3,
        &kyoku.action_tables[3].takes,
        &kyoku.action_tables[3].discards,
    ) {
        Ok(x) => x,
        Err(e) => {
            return Err(e);
        },
    };
    let ts = [t0, t1, t2, t3];
    let ds = [d0, d1, d2, d3];
    let ghost tsv = lists_of(ts);
    let ghost dsv = lists_of(ds);
    proof {
        assert(parse_upto(*kyoku, 4) == Ok::<(Seq<Seq<Event>>, Seq<Seq<Event>>), Failure>((tsv, dsv)))
            by {
            assert(seq![ts[0]@, ts[1]@, ts[2]@, ts[3]@] =~= Seq::<Seq<Event>>::empty().push(ts[0]@).push(
                ts[1]@,
            ).push(ts[2]@).push(ts[3]@));
            assert(seq![ds[0]@, ds[1]@, ds[2]@, ds[3]@] =~= Seq::<Seq<Event>>::empty().push(ds[0]@).push(
                ds[1]@,
            ).push(ds[2]@).push(ds[3]@));
        }
    }
    convert_walks(kyoku, &ts, &ds)
}

/// Walks a kyoku whose lists are read, retrying with the backtracking
/// choices that each failed attempt leaves.
fn convert_walks(kyoku: &Kyoku, ts: &[Vec<Event>; 4], ds: &[Vec<Event>; 4]) -> (r: Result<
    Vec<Event>,
    ConvertError,
>)
    ensures
        match retry(*kyoku, lists_of(*ts), lists_of(*ds), empty_choices(), MAX_RETRIES as nat, None) {
            Ok(evs) => r matches Ok(v) && same_events(v@, evs),
            Err(f) => r matches Err(e) && fail_matches(e, f),
        },
{
    let ghost tsv = lists_of(*ts);
    let ghost dsv = lists_of(*ds);
    let mut bt: Vec<u8> = Vec::new();
    let mut i: usize = 0;
    while i < BACKTRACK_SLOTS
        invariant
            i <= BACKTRACK_SLOTS,
            bt@.len() == i,
            forall|j: int| 0 <= j < i ==> bt@[j] == 0,
        decreases BACKTRACK_SLOTS - i,
    {
        bt.push(0);
        i = i + 1;
    }
    proof {
        assert(bt@ =~= empty_choices());
    }
    let ghost bt0 = bt@;
    let mut first: Option<ConvertError> = None;
    let ghost mut first_f: Option<Failure> = None;
    let mut left: u64 = MAX_RETRIES;
    loop
        invariant
            bt@.len() == BACKTRACK_SLOTS,
            bt0 == empty_choices(),
            tsv == lists_of(*ts),
            dsv == lists_of(*ds),
            retry(*kyoku, tsv, dsv, bt@, left as nat, first_f) == retry(
                *kyoku,
                tsv,
                dsv,
                bt0,
                MAX_RETRIES as nat,
                None,
            ),
            match first {
                Some(e) => first_f matches Some(f) && fail_matches(e, f),
                None => first_f is None,
            },
        decreases left,
    {
        let ghost bt_before = bt@;
        proof {
            reveal(retry);
        }
        match attempt_exec(kyoku, ts, ds, &mut bt) {
            Ok(evs) => {
                return Ok(evs);
            },
            Err(e) => {
                let ghost ef = attempt(*kyoku, tsv, dsv, bt_before).0->Err_0;
                let ghost f_next = match first_f {
                    Some(x) => x,
                    None => ef,
                };
                let f = match first {
                    Some(x) => x,
                    None => e,
                };
                if no_choices_exec(&bt) || left == 0 {
                    return Err(f);
                }
                first = Some(f);
                proof {
                    first_f = Some(f_next);
                }
                left = left - 1;
            },
        }
    }
}

/// Converts a tenhou.net/6 log into mjai events: the start of the game,
/// the events of each kyoku, the end of the game; the first kyoku that
/// cannot be converted fails the whole.
pub fn tenhou_to_mjai(log: &Log) -> (r: Result<Vec<Event>, ConvertError>)
    ensures
        match mjai_events(*log) {
            Ok(evs) => r matches Ok(v) && same_events(v@, evs),
            Err(f) => r matches Err(e) && fail_matches(e, f),
        },
{
    let names = [
        log.names[0].clone(),
        log.names[1].clone(),
        log.names[2].clone(),
        log.names[3].clone(),
    ];
    let start = Event::StartGame {
        names,
        kyoku_first: log.game_length.as_u8(),
        aka_flag: log.has_aka,
    };
    proof {
        assert(same_event(start, start_game_event(*log)));
    }
    let mut events: Vec<Event> = Vec::new();
    events.push(start);
    let ghost mut spec_events: Seq<Event> = seq![start_game_event(*log)];
    proof {
        assert(log_events(*log, 0) == Ok::<Seq<Event>, Failure>(Seq::empty()));
        assert(same_events(events@, spec_events));
    }
    let mut i: usize = 0;
    while i < log.kyokus.len()
        invariant
            i <= log.kyokus@.len(),
            log_events(*log, i as int) matches Ok(es) && spec_events == seq![start_game_event(*log)]
                + es,
            same_events(events@, spec_events),
        decreases log.kyokus@.len() - i,
    {
        match tenhou_kyoku_to_mjai_events(&log.kyokus[i]) {
            Ok(kevs) => {
                let ghost ks = kyoku_events(log.kyokus@[i as int])->Ok_0;
                let ghost before = events@;
                let ghost got = kevs@;
                let mut kevs = kevs;
                events.append(&mut kevs);
                proof {
                    lemma_same_events_concat(before, spec_events, got, ks);
                    let es = log_events(*log, i as int)->Ok_0;
                    assert(spec_events + ks =~= seq![start_game_event(*log)] + (es + ks));
                    spec_events = spec_events + ks;
                }
            },
            Err(e) => {
                proof {
                    lemma_log_events_err_extends(*log, i as int + 1);
                }
                return Err(e);
            },
        }
        i = i + 1;
    }
    let ghost before = events@;
    events.push(Event::EndGame);
    proof {
        lemma_same_events_push(before, spec_events, Event::EndGame, Event::EndGame);
    }
    Ok(events)
}

/// A failure in the first `i` kyokus is the failure of the whole log.
proof fn lemma_log_events_err_extends(log: Log, i: int)
    requires
        0 <= i <= log.kyokus@.len(),
        log_events(log, i) is Err,
    ensures
        log_events(log, log.kyokus@.len() as int) == log_events(log, i),
    decreases log.kyokus@.len() - i,
{
    if i < log.kyokus@.len() {
        lemma_log_events_err_extends(log, i + 1);
    }
}

/// The events of a kyoku open with the kyoku's start and close with its
/// end.
pub open spec fn framed(evs: Seq<Event>, k: Kyoku) -> bool {
    &&& evs.len() >= 2
    &&& evs[0] == start_kyoku_event(k)
    &&& evs.last() == Event::EndKyoku
}

/// The closing events of a kyoku end with the end of the kyoku.
proof fn lemma_end_events_last(k: Kyoku)
    ensures
        end_events(k).len() >= 1,
        end_events(k).last() == Event::EndKyoku,
{
}

/// A step keeps the first event; a finished walk ends with the end of the
/// kyoku.
proof fn lemma_step_frame(k: Kyoku, ts: Seq<Seq<Event>>, ds: Seq<Seq<Event>>, w: Walk, bt: Seq<u8>)
    requires
        w.events.len() >= 1,
    ensures
        match step(k, ts, ds, w, bt) {
            Step::Next(w2, _) => w2.events.len() >= 1 && w2.events[0] == w.events[0],
            Step::Done(evs) => evs.len() >= 2 && evs[0] == w.events[0] && evs.last()
                == Event::EndKyoku,
            Step::Fail(_) => true,
        },
{
    lemma_end_events_last(k);
}

/// A walk that starts with the kyoku's start and succeeds gives events
/// framed by the start and the end of the kyoku.
proof fn lemma_walk_frame(
    k: Kyoku,
    ts: Seq<Seq<Event>>,
    ds: Seq<Seq<Event>>,
    w: Walk,
    bt: Seq<u8>,
    fuel: nat,
)
    requires
        w.events.len() >= 1,
        w.events[0] == start_kyoku_event(k),
    ensures
        walk(k, ts, ds, w, bt, fuel).0 matches Ok(evs) ==> framed(evs, k),
    decreases fuel,
{
    if fuel > 0 {
        lemma_step_frame(k, ts, ds, w, bt);
        if let Step::Next(w2, bt2) = step(k, ts, ds, w, bt) {
            lemma_walk_frame(k, ts, ds, w2, bt2, (fuel - 1) as nat);
        }
    }
}

/// Each attempt that succeeds, and so the whole retrying, gives framed
/// events.
proof fn lemma_retry_frame(
    k: Kyoku,
    ts: Seq<Seq<Event>>,
    ds: Seq<Seq<Event>>,
    bt: Seq<u8>,
    n: nat,
    first: Option<Failure>,
)
    ensures
        retry(k, ts, ds, bt, n, first) matches Ok(evs) ==> framed(evs, k),
    decreases n,
{
    reveal(retry);
    if k.dora_indicators@.len() > 0 {
        lemma_walk_frame(
            k,
            ts,
            ds,
            start_walk(k),
            bt,
            (takes_left(ts, seq![0int, 0, 0, 0]) + 1) as nat,
        );
    }
    if n > 0 {
        let bt2 = attempt(k, ts, ds, bt).1;
        let e = attempt(k, ts, ds, bt).0;
        if let Err(x) = e {
            let f = match first {
                Some(y) => y,
                None => x,
            };
            lemma_retry_frame(k, ts, ds, bt2, (n - 1) as nat, Some(f));
        }
    }
}

/// The events of a converted kyoku open with the start of the kyoku (round
/// wind, number, honba, riichi sticks, first dora indicator, dealer,
/// scores and dealt hands from the log) and close with its end.
pub proof fn law_kyoku_framed(k: Kyoku)
    ensures
        kyoku_events(k) matches Ok(evs) ==> framed(evs, k),
{
    reveal(kyoku_events);
    if let Ok((ts, ds)) = parse_upto(k, 4) {
        lemma_retry_frame(k, ts, ds, empty_choices(), MAX_RETRIES as nat, None);
    }
}

/// The mjai stream of a log opens with the start of the game, whose names,
/// first kyoku and red-five flag are the log's, and closes with the end of
/// the game.
pub proof fn law_stream_framed(log: Log)
    ensures
        mjai_events(log) matches Ok(evs) ==> {
            &&& evs.len() >= 2
            &&& evs[0] == start_game_event(log)
            &&& evs.last() == Event::EndGame
        },
{
}

/// The event is a draw or a call of player `a`: what his list of draws
/// reads as.
pub open spec fn is_take_of(e: Event, a: u8) -> bool {
    match e {
        Event::Tsumo { actor, .. } => actor == a,
        Event::Chi { actor, .. } => actor == a,
        Event::Pon { actor, .. } => actor == a,
        Event::Daiminkan { actor, .. } => actor == a,
        _ => false,
    }
}

/// The event is a discard, kan or riichi of player `a`: what his list of
/// discards reads as.
pub open spec fn is_discard_of(e: Event, a: u8) -> bool {
    match e {
        Event::Dahai { actor, .. } => actor == a,
        Event::Kakan { actor, .. } => actor == a,
        Event::Ankan { actor, .. } => actor == a,
        Event::Reach { actor } => actor == a,
        _ => false,
    }
}

/// The draws and calls of player `a` among the events, in order.
pub open spec fn takes_of(evs: Seq<Event>, a: u8) -> Seq<Event> {
    evs.filter(|e: Event| is_take_of(e, a))
}

/// The discards, kans and riichis of player `a` among the events, in
/// order.
pub open spec fn discards_of(evs: Seq<Event>, a: u8) -> Seq<Event> {
    evs.filter(|e: Event| is_discard_of(e, a))
}

/// Every event of the list is a draw or call of player `a`.
pub open spec fn all_takes_of(ts: Seq<Event>, a: u8) -> bool {
    forall|i: int| 0 <= i < ts.len() ==> is_take_of(#[trigger] ts[i], a)
}

/// Every event of the list is a discard, kan or riichi of player `a`.
pub open spec fn all_discards_of(ds: Seq<Event>, a: u8) -> bool {
    forall|i: int| 0 <= i < ds.len() ==> is_discard_of(#[trigger] ds[i], a)
}

/// A draw item reads as a draw or call of its player.
proof fn lemma_take_item_shape(actor: u8, it: ActionItem)
    ensures
        take_item(actor, it) matches Ok(e) ==> is_take_of(e, actor),
{
}

/// A player's list of draws reads as his draws and calls.
proof fn lemma_take_events_shape(actor: u8, items: Seq<ActionItem>)
    ensures
        take_events_of(actor, items) matches Ok(ts) ==> all_takes_of(ts, actor),
    decreases items.len(),
{
    if items.len() > 0 {
        lemma_take_events_shape(actor, items.drop_last());
        lemma_take_item_shape(actor, items.last());
    }
}

/// A discard item reads as discards, kans and riichis of its player.
proof fn lemma_discard_item_shape(actor: u8, it: ActionItem)
    ensures
        discard_item(actor, it) matches Ok(es) ==> all_discards_of(es, actor),
{
}

/// A player's list of discards reads as his discards, kans and riichis.
proof fn lemma_discard_events_shape(actor: u8, items: Seq<ActionItem>)
    ensures
        discard_events_of(actor, items) matches Ok(ds) ==> all_discards_of(ds, actor),
    decreases items.len(),
{
    if items.len() > 0 {
        lemma_discard_events_shape(actor, items.drop_last());
        lemma_discard_item_shape(actor, items.last());
        if let Ok(es) = discard_events_of(actor, items.drop_last()) {
            if let Ok(more) = discard_item(actor, items.last()) {
                assert forall|i: int| 0 <= i < (es + more).len() implies is_discard_of(
                    #[trigger] (es + more)[i],
                    actor,
                ) by {
                    if i < es.len() {
                        assert(is_discard_of(es[i], actor));
                    } else {
                        assert(is_discard_of(more[i - es.len()], actor));
                    }
                }
            }
        }
    }
}

/// Filling in and dropping discards keeps them discards of the player.
proof fn lemma_finalize_shape(takes: Seq<Event>, t: int, ds: Seq<Event>, di: int, actor: u8)
    requires
        all_discards_of(ds, actor),
        reach_pairs_ok(ds),
    ensures
        all_discards_of(finalize(takes, t, ds, di), actor),
    decreases takes.len() - t,
{
    if !(t < 0 || t >= takes.len() || di < 0 || di >= ds.len()) {
        if is_reach(ds[di]) {
            assert(di + 1 < ds.len());
        }
        let d = if ds[di] is Reach {
            di + 1
        } else {
            di
        };
        assert(is_discard_of(ds[d], actor));
        match ds[d] {
            Event::Dahai { pai, tsumogiri, actor: x } => if tsumogiri {
                match takes[t] {
                    Event::Tsumo { pai: drawn, .. } => {
                        let ds2 = ds.update(d, Event::Dahai { pai: drawn, tsumogiri, actor: x });
                        assert forall|i: int| 0 <= i < ds2.len() implies is_discard_of(
                            #[trigger] ds2[i],
                            actor,
                        ) by {
                            assert(is_discard_of(ds[i], actor));
                        }
                        assert forall|i: int|
                            0 <= i < ds2.len() && #[trigger] is_reach(ds2[i]) implies i + 1
                            < ds2.len() && follows_reach(ds2[i + 1]) by {
                            assert(is_reach(ds[i]));
                        }
                        lemma_finalize_shape(takes, t + 1, ds2, d + 1, actor);
                    },
                    _ => lemma_finalize_shape(takes, t + 1, ds, d + 1, actor),
                }
            } else if pai == Pai::Unknown {
                let ds2 = ds.remove(d);
                assert forall|i: int| 0 <= i < ds2.len() implies is_discard_of(
                    #[trigger] ds2[i],
                    actor,
                ) by {
                    if i < d {
                        assert(is_discard_of(ds[i], actor));
                    } else {
                        assert(is_discard_of(ds[i + 1], actor));
                    }
                }
                assert forall|i: int|
                    0 <= i < ds2.len() && #[trigger] is_reach(ds2[i]) implies i + 1 < ds2.len()
                    && follows_reach(ds2[i + 1]) by {
                    if i < d {
                        assert(is_reach(ds[i]));
                    } else {
                        assert(is_reach(ds[i + 1]));
                    }
                }
                lemma_finalize_shape(takes, t + 1, ds2, d, actor);
            } else {
                lemma_finalize_shape(takes, t + 1, ds, d + 1, actor);
            },
            _ => lemma_finalize_shape(takes, t + 1, ds, d + 1, actor),
        }
    }
}

/// A player's lists read as his draws and calls, and his discards, kans
/// and riichis.
proof fn lemma_parse_actor_shape(actor: u8, takes: Seq<ActionItem>, discards: Seq<ActionItem>)
    ensures
        parse_actor(actor, takes, discards) matches Ok((ts, ds)) ==> all_takes_of(ts, actor)
            && all_discards_of(ds, actor),
{
    reveal(parse_actor);
    lemma_take_events_shape(actor, takes);
    lemma_discard_events_shape(actor, discards);
    lemma_discard_events_pairs(actor, discards);
    if let Ok(ts) = take_events_of(actor, takes) {
        if let Ok(ds) = discard_events_of(actor, discards) {
            lemma_finalize_shape(ts, 0, ds, 0, actor);
        }
    }
}

/// Every player's draws, calls, discards, kans and riichis among the
/// walk's events are the first of his lists, as far as the walk has used
/// them.
pub open spec fn walk_projects(ts: Seq<Seq<Event>>, ds: Seq<Seq<Event>>, w: Walk) -> bool {
    &&& forall|b: u8|
        b < 4 ==> #[trigger] takes_of(w.events, b) == ts[b as int].take(w.take_i[b as int])
    &&& forall|b: u8|
        b < 4 ==> #[trigger] discards_of(w.events, b) == ds[b as int].take(w.discard_i[b as int])
}

/// Each player's lists read as his own draws and calls, and his own
/// discards, kans and riichis.
pub open spec fn lists_shaped(ts: Seq<Seq<Event>>, ds: Seq<Seq<Event>>) -> bool {
    forall|b: u8| b < 4 ==> all_takes_of(#[trigger] ts[b as int], b) && all_discards_of(ds[b as int], b)
}

/// Keeping the events that pass a test keeps none of a list where none
/// passes.
proof fn lemma_filter_none(s: Seq<Event>, pred: spec_fn(Event) -> bool)
    requires
        forall|i: int| 0 <= i < s.len() ==> !pred(#[trigger] s[i]),
    ensures
        s.filter(pred) == Seq::<Event>::empty(),
    decreases s.len(),
{
    reveal(Seq::filter);
    if s.len() > 0 {
        lemma_filter_none(s.drop_last(), pred);
    }
}

/// The closing events of a kyoku are no player's draws or discards.
proof fn lemma_end_events_project(k: Kyoku, b: u8)
    ensures
        takes_of(end_events(k), b) == Seq::<Event>::empty(),
        discards_of(end_events(k), b) == Seq::<Event>::empty(),
{
    let e = end_events(k);
    assert forall|i: int| 0 <= i < e.len() implies !is_take_of(#[trigger] e[i], b) && !is_discard_of(
        e[i],
        b,
    ) by {
        match k.end_status {
            EndStatus::Hora { details } => {
                if i < details@.len() {
                    assert(e[i] is Hora);
                }
            },
            EndStatus::Ryukyoku { .. } => {},
        }
    }
    lemma_filter_none(e, |x: Event| is_take_of(x, b));
    lemma_filter_none(e, |x: Event| is_discard_of(x, b));
}

/// Appending the closing events keeps each player's draws and discards.
proof fn lemma_done_projects(k: Kyoku, evs: Seq<Event>, b: u8)
    ensures
        takes_of(evs + end_events(k), b) == takes_of(evs, b),
        discards_of(evs + end_events(k), b) == discards_of(evs, b),
{
    broadcast use vstd::seq_lib::group_seq_lib_default;

    lemma_end_events_project(k, b);
    assert(takes_of(evs, b) + Seq::<Event>::empty() =~= takes_of(evs, b));
    assert(discards_of(evs, b) + Seq::<Event>::empty() =~= discards_of(evs, b));
}

/// Pushing an event that is neither a draw nor a discard keeps each
/// player's draws and discards.
proof fn lemma_push_other(evs: Seq<Event>, e: Event)
    requires
        !(e is Tsumo || e is Chi || e is Pon || e is Daiminkan || e is Dahai || e is Kakan
            || e is Ankan || e is Reach),
    ensures
        forall|b: u8| #[trigger] takes_of(evs.push(e), b) == takes_of(evs, b),
        forall|b: u8| #[trigger] discards_of(evs.push(e), b) == discards_of(evs, b),
{
    broadcast use vstd::seq::Seq::lemma_filter_push;

    assert forall|b: u8| #[trigger] takes_of(evs.push(e), b) == takes_of(evs, b) by {
        assert(evs.push(e).filter(|x: Event| is_take_of(x, b)) == evs.filter(
            |x: Event| is_take_of(x, b),
        ));
    }
    assert forall|b: u8| #[trigger] discards_of(evs.push(e), b) == discards_of(evs, b) by {
        assert(evs.push(e).filter(|x: Event| is_discard_of(x, b)) == evs.filter(
            |x: Event| is_discard_of(x, b),
        ));
    }
}

/// Pushing player `a`'s next draw or call moves his draws on by one and
/// keeps every player's discards.
proof fn lemma_push_take(evs: Seq<Event>, t: Seq<Event>, i: int, a: u8)
    requires
        0 <= i < t.len(),
        all_takes_of(t, a),
    ensures
        forall|b: u8| #[trigger] takes_of(evs.push(t[i]), b) == if b == a {
            takes_of(evs, b).push(t[i])
        } else {
            takes_of(evs, b)
        },
        forall|b: u8| #[trigger] discards_of(evs.push(t[i]), b) == discards_of(evs, b),
{
    broadcast use vstd::seq::Seq::lemma_filter_push;

    let e = t[i];
    assert(is_take_of(e, a));
    assert forall|b: u8| #[trigger] takes_of(evs.push(e), b) == if b == a {
        takes_of(evs, b).push(e)
    } else {
        takes_of(evs, b)
    } by {
        assert(evs.push(e).filter(|x: Event| is_take_of(x, b)) == if (|x: Event| is_take_of(x, b))(
            e,
        ) {
            evs.filter(|x: Event| is_take_of(x, b)).push(e)
        } else {
            evs.filter(|x: Event| is_take_of(x, b))
        });
    }
    assert forall|b: u8| #[trigger] discards_of(evs.push(e), b) == discards_of(evs, b) by {
        assert(evs.push(e).filter(|x: Event| is_discard_of(x, b)) == evs.filter(
            |x: Event| is_discard_of(x, b),
        ));
    }
}

/// Pushing player `a`'s next discard, kan or riichi moves his discards on
/// by one and keeps every player's draws.
proof fn lemma_push_discard(evs: Seq<Event>, d: Seq<Event>, i: int, a: u8)
    requires
        0 <= i < d.len(),
        all_discards_of(d, a),
    ensures
        forall|b: u8| #[trigger] discards_of(evs.push(d[i]), b) == if b == a {
            discards_of(evs, b).push(d[i])
        } else {
            discards_of(evs, b)
        },
        forall|b: u8| #[trigger] takes_of(evs.push(d[i]), b) == takes_of(evs, b),
{
    broadcast use vstd::seq::Seq::lemma_filter_push;

    let e = d[i];
    assert(is_discard_of(e, a));
    assert forall|b: u8| #[trigger] discards_of(evs.push(e), b) == if b == a {
        discards_of(evs, b).push(e)
    } else {
        discards_of(evs, b)
    } by {
        assert(evs.push(e).filter(|x: Event| is_discard_of(x, b)) == if (|x: Event| is_discard_of(
            x,
            b,
        ))(e) {
            evs.filter(|x: Event| is_discard_of(x, b)).push(e)
        } else {
            evs.filter(|x: Event| is_discard_of(x, b))
        });
    }
    assert forall|b: u8| #[trigger] takes_of(evs.push(e), b) == takes_of(evs, b) by {
        assert(evs.push(e).filter(|x: Event| is_take_of(x, b)) == evs.filter(
            |x: Event| is_take_of(x, b),
        ));
    }
}

/// A list is the first part of another.
pub open spec fn is_prefix(p: Seq<Event>, s: Seq<Event>) -> bool {
    p.len() <= s.len() && p == s.take(p.len() as int)
}

/// Each player's draws, calls, discards, kans and riichis among the
/// events are the first of his lists.
pub open spec fn prefix_projects(ts: Seq<Seq<Event>>, ds: Seq<Seq<Event>>, evs: Seq<Event>) -> bool {
    &&& forall|b: u8| b < 4 ==> is_prefix(#[trigger] takes_of(evs, b), ts[b as int])
    &&& forall|b: u8| b < 4 ==> is_prefix(#[trigger] discards_of(evs, b), ds[b as int])
}

/// A walk whose counters stay within the lists and whose events project
/// onto them gives, once closed, events that project onto the first parts
/// of the lists.
proof fn lemma_close_projects(k: Kyoku, ts: Seq<Seq<Event>>, ds: Seq<Seq<Event>>, w: Walk)
    requires
        walk_ok(k, ts, ds, w),
        walk_projects(ts, ds, w),
    ensures
        prefix_projects(ts, ds, w.events + end_events(k)),
{
    let evs = w.events + end_events(k);
    assert forall|b: u8| b < 4 implies is_prefix(#[trigger] takes_of(evs, b), ts[b as int]) by {
        lemma_done_projects(k, w.events, b);
        assert(takes_of(w.events, b) == ts[b as int].take(w.take_i[b as int]));
        assert(0 <= w.take_i[b as int] <= ts[b as int].len());
    }
    assert forall|b: u8| b < 4 implies is_prefix(#[trigger] discards_of(evs, b), ds[b as int]) by {
        lemma_done_projects(k, w.events, b);
        assert(discards_of(w.events, b) == ds[b as int].take(w.discard_i[b as int]));
        assert(0 <= w.discard_i[b as int] <= ds[b as int].len());
    }
}

/// The part of a step after the draw keeps the projections of the events
/// onto the lists.
#[verifier::rlimit(60)]
proof fn lemma_discard_part_projects(
    k: Kyoku,
    ts: Seq<Seq<Event>>,
    ds: Seq<Seq<Event>>,
    w: Walk,
    bt: Seq<u8>,
)
    requires
        walk_ok(k, ts, ds, w),
        lists_shaped(ts, ds),
        walk_projects(ts, ds, w),
    ensures
        match discard_part(k, ts, ds, w, bt) {
            Step::Next(w2, _) => walk_projects(ts, ds, w2),
            Step::Done(evs) => prefix_projects(ts, ds, evs),
            Step::Fail(_) => true,
        },
{
    let a = w.actor;
    let au = a as u8;
    let dora = k.dora_indicators@;
    if w.discard_i[a] >= ds[a].len() {
        lemma_close_projects(k, ts, ds, w);
        return ;
    }
    assert(all_takes_of(ts[au as int], au) && all_discards_of(ds[au as int], au));
    let i = w.discard_i[a];
    let d = ds[a][i];
    let dsi = w.discard_i.update(a, i + 1);
    lemma_push_discard(w.events, ds[a], i, au);
    assert(ds[a].take(i).push(d) =~= ds[a].take(i + 1));
    let ev = w.events.push(d);
    let kan_dora_now = w.dora_at_discard && (d is Dahai || d is Ankan);
    if kan_dora_now && w.dora_i >= dora.len() {
        return ;
    }
    let ev2 = if kan_dora_now {
        ev.push(Event::Dora { dora_marker: dora[w.dora_i] })
    } else {
        ev
    };
    if kan_dora_now {
        lemma_push_other(ev, Event::Dora { dora_marker: dora[w.dora_i] });
    }
    assert forall|b: u8| b < 4 implies #[trigger] takes_of(ev2, b) == ts[b as int].take(
        w.take_i[b as int],
    ) by {
        assert(takes_of(w.events, b) == ts[b as int].take(w.take_i[b as int]));
    }
    assert forall|b: u8| b < 4 implies #[trigger] discards_of(ev2, b) == ds[b as int].take(
        dsi[b as int],
    ) by {
        assert(discards_of(w.events, b) == ds[b as int].take(w.discard_i[b as int]));
    }
    if d is Reach && dsi[a] >= ds[a].len() {
        return ;
    }
    let dh = ds[a][dsi[a]];
    let ev3 = if d is Reach {
        ev2.push(dh)
    } else {
        ev2
    };
    let dsi2 = if d is Reach {
        dsi.update(a, dsi[a] + 1)
    } else {
        dsi
    };
    if d is Reach {
        lemma_push_discard(ev2, ds[a], dsi[a], au);
        assert(ds[a].take(dsi[a]).push(dh) =~= ds[a].take(dsi[a] + 1));
    }
    assert forall|b: u8| b < 4 implies #[trigger] takes_of(ev3, b) == ts[b as int].take(
        w.take_i[b as int],
    ) by {
        assert(takes_of(ev2, b) == ts[b as int].take(w.take_i[b as int]));
    }
    assert forall|b: u8| b < 4 implies #[trigger] discards_of(ev3, b) == ds[b as int].take(
        dsi2[b as int],
    ) by {
        assert(discards_of(ev2, b) == ds[b as int].take(dsi[b as int]));
    }
    let ev4 = ev3.push(Event::Dora { dora_marker: dora[if kan_dora_now {
        w.dora_i + 1
    } else {
        w.dora_i
    }] });
    lemma_push_other(ev3, Event::Dora { dora_marker: dora[if kan_dora_now {
        w.dora_i + 1
    } else {
        w.dora_i
    }] });
    assert forall|b: u8| b < 4 implies #[trigger] takes_of(ev4, b) == ts[b as int].take(
        w.take_i[b as int],
    ) by {
        assert(takes_of(ev3, b) == ts[b as int].take(w.take_i[b as int]));
    }
    assert forall|b: u8| b < 4 implies #[trigger] discards_of(ev4, b) == ds[b as int].take(
        dsi2[b as int],
    ) by {
        assert(discards_of(ev3, b) == ds[b as int].take(dsi2[b as int]));
    }
    let w3 = Walk { events: ev3, discard_i: dsi2, ..w };
    assert(walk_projects(ts, ds, w3));
    if d is Reach {
        assert(0 <= dsi2[a] <= ds[a].len());
    }
    assert forall|b: int| 0 <= b < 4 implies 0 <= #[trigger] w3.discard_i[b] <= ds[b].len() by {
        assert(0 <= w.discard_i[b] <= ds[b].len());
    }
    lemma_close_projects(k, ts, ds, w3);
}

/// A step keeps the projections of the events onto the lists.
#[verifier::rlimit(60)]
proof fn lemma_step_projects(k: Kyoku, ts: Seq<Seq<Event>>, ds: Seq<Seq<Event>>, w: Walk, bt: Seq<u8>)
    requires
        walk_ok(k, ts, ds, w),
        lists_shaped(ts, ds),
        walk_projects(ts, ds, w),
    ensures
        match step(k, ts, ds, w, bt) {
            Step::Next(w2, _) => walk_projects(ts, ds, w2),
            Step::Done(evs) => prefix_projects(ts, ds, evs),
            Step::Fail(_) => true,
        },
{
    let a = w.actor;
    let au = a as u8;
    let dora = k.dora_indicators@;
    if w.take_i[a] >= ts[a].len() {
        return ;
    }
    assert(all_takes_of(ts[au as int], au) && all_discards_of(ds[au as int], au));
    let i = w.take_i[a];
    let take = ts[a][i];
    let ti = w.take_i.update(a, i + 1);
    if naki_mismatch(take, w.last_dahai, w.last_actor, au) {
        return ;
    }
    let ev0 = match w.reach_flag {
        Some(r) => w.events.push(Event::ReachAccepted { actor: r }),
        None => w.events,
    };
    if let Some(r) = w.reach_flag {
        lemma_push_other(w.events, Event::ReachAccepted { actor: r });
    }
    let needs_dora = if take is Daiminkan {
        w.dora_at_discard
    } else {
        take is Tsumo && w.dora_at_tsumo
    };
    if needs_dora && w.dora_i >= dora.len() {
        return ;
    }
    let ev1 = if needs_dora {
        ev0.push(Event::Dora { dora_marker: dora[w.dora_i] })
    } else {
        ev0
    };
    if needs_dora {
        lemma_push_other(ev0, Event::Dora { dora_marker: dora[w.dora_i] });
    }
    lemma_push_take(ev1, ts[a], i, au);
    assert(ts[a].take(i).push(take) =~= ts[a].take(i + 1));
    let ev2 = ev1.push(take);
    assert forall|b: u8| b < 4 implies #[trigger] takes_of(ev2, b) == ts[b as int].take(ti[b as int]) by {
        assert(takes_of(w.events, b) == ts[b as int].take(w.take_i[b as int]));
    }
    assert forall|b: u8| b < 4 implies #[trigger] discards_of(ev2, b) == ds[b as int].take(
        w.discard_i[b as int],
    ) by {
        assert(discards_of(w.events, b) == ds[b as int].take(w.discard_i[b as int]));
    }
    let att = if needs_dora {
        false
    } else {
        w.dora_at_tsumo
    };
    let w1 = Walk {
        events: ev2,
        dora_i: if needs_dora {
            w.dora_i + 1
        } else {
            w.dora_i
        },
        take_i: ti,
        reach_flag: None,
        dora_at_tsumo: att,
        ..w
    };
    assert(walk_projects(ts, ds, w1));
    assert forall|b: int| 0 <= b < 4 implies 0 <= #[trigger] w1.take_i[b] <= ts[b].len() by {
        assert(0 <= w.take_i[b] <= ts[b].len());
    }
    if !(take is Daiminkan) {
        lemma_discard_part_projects(k, ts, ds, w1, bt);
    }
}

/// A walk whose events project onto the lists gives, once finished,
/// events whose projections are first parts of the lists.
proof fn lemma_walk_projects(
    k: Kyoku,
    ts: Seq<Seq<Event>>,
    ds: Seq<Seq<Event>>,
    w: Walk,
    bt: Seq<u8>,
    fuel: nat,
)
    requires
        walk_ok(k, ts, ds, w),
        lists_shaped(ts, ds),
        walk_projects(ts, ds, w),
        bt.len() == BACKTRACK_SLOTS,
    ensures
        walk(k, ts, ds, w, bt, fuel).0 matches Ok(evs) ==> prefix_projects(ts, ds, evs),
    decreases fuel,
{
    if fuel > 0 {
        lemma_step_projects(k, ts, ds, w, bt);
        lemma_step_progress(k, ts, ds, w, bt);
        if let Step::Next(w2, bt2) = step(k, ts, ds, w, bt) {
            lemma_walk_projects(k, ts, ds, w2, bt2, (fuel - 1) as nat);
        }
    }
}

/// An attempt that succeeds, and so the retrying, gives events whose
/// projections are first parts of the lists.
proof fn lemma_retry_projects(
    k: Kyoku,
    ts: Seq<Seq<Event>>,
    ds: Seq<Seq<Event>>,
    bt: Seq<u8>,
    n: nat,
    first: Option<Failure>,
)
    requires
        ts.len() == 4,
        ds.len() == 4,
        lists_shaped(ts, ds),
        bt.len() == BACKTRACK_SLOTS,
    ensures
        retry(k, ts, ds, bt, n, first) matches Ok(evs) ==> prefix_projects(ts, ds, evs),
    decreases n,
{
    reveal(retry);
    if k.dora_indicators@.len() > 0 {
        let w0 = start_walk(k);
        assert forall|b: u8| b < 4 implies #[trigger] takes_of(w0.events, b) == ts[b as int].take(
            w0.take_i[b as int],
        ) by {
            lemma_filter_none(w0.events, |x: Event| is_take_of(x, b));
            assert(ts[b as int].take(0) =~= Seq::<Event>::empty());
        }
        assert forall|b: u8| b < 4 implies #[trigger] discards_of(w0.events, b) == ds[b as int].take(
            w0.discard_i[b as int],
        ) by {
            lemma_filter_none(w0.events, |x: Event| is_discard_of(x, b));
            assert(ds[b as int].take(0) =~= Seq::<Event>::empty());
        }
        lemma_walk_projects(
            k,
            ts,
            ds,
            w0,
            bt,
            (takes_left(ts, seq![0int, 0, 0, 0]) + 1) as nat,
        );
        lemma_attempt_choices_len(k, ts, ds, bt);
    }
    if n > 0 {
        let bt2 = attempt(k, ts, ds, bt).1;
        let e = attempt(k, ts, ds, bt).0;
        if let Err(x) = e {
            let f = match first {
                Some(y) => y,
                None => x,
            };
            lemma_attempt_choices_len(k, ts, ds, bt);
            lemma_retry_projects(k, ts, ds, bt2, (n - 1) as nat, Some(f));
        }
    }
}

/// An attempt keeps the size of the backtracking record.
proof fn lemma_attempt_choices_len(k: Kyoku, ts: Seq<Seq<Event>>, ds: Seq<Seq<Event>>, bt: Seq<u8>)
    requires
        ts.len() == 4,
        ds.len() == 4,
        bt.len() == BACKTRACK_SLOTS,
    ensures
        attempt(k, ts, ds, bt).1.len() == BACKTRACK_SLOTS,
{
    if k.dora_indicators@.len() > 0 {
        lemma_walk_choices_len(
            k,
            ts,
            ds,
            start_walk(k),
            bt,
            (takes_left(ts, seq![0int, 0, 0, 0]) + 1) as nat,
        );
    }
}

/// A walk keeps the size of the backtracking record.
proof fn lemma_walk_choices_len(
    k: Kyoku,
    ts: Seq<Seq<Event>>,
    ds: Seq<Seq<Event>>,
    w: Walk,
    bt: Seq<u8>,
    fuel: nat,
)
    requires
        walk_ok(k, ts, ds, w),
        bt.len() == BACKTRACK_SLOTS,
    ensures
        walk(k, ts, ds, w, bt, fuel).1.len() == BACKTRACK_SLOTS,
    decreases fuel,
{
    if fuel > 0 {
        lemma_step_progress(k, ts, ds, w, bt);
        if let Step::Next(w2, bt2) = step(k, ts, ds, w, bt) {
            lemma_walk_choices_len(k, ts, ds, w2, bt2, (fuel - 1) as nat);
        }
    }
}

/// In the mjai events of a converted kyoku, each player's draws and calls
/// come in the order of his list of draws, and his discards, kans and
/// riichis in the order of his list of discards, each as far as the kyoku
/// went: the first events that the lists read as, none left out, none
/// added.
pub proof fn law_player_actions_in_order(k: Kyoku, b: u8)
    requires
        b < 4,
    ensures
        kyoku_events(k) matches Ok(evs) ==> {
            &&& parse_actor(
                b,
                k.action_tables[b as int].takes@,
                k.action_tables[b as int].discards@,
            ) matches Ok((t, d))
            &&& is_prefix(takes_of(evs, b), t)
            &&& is_prefix(discards_of(evs, b), d)
        },
{
    reveal(kyoku_events);
    reveal_with_fuel(parse_upto, 5);
    if let Ok((ts, ds)) = parse_upto(k, 4) {
        lemma_parse_actor_shape(0, k.action_tables[0].takes@, k.action_tables[0].discards@);
        lemma_parse_actor_shape(1, k.action_tables[1].takes@, k.action_tables[1].discards@);
        lemma_parse_actor_shape(2, k.action_tables[2].takes@, k.action_tables[2].discards@);
        lemma_parse_actor_shape(3, k.action_tables[3].takes@, k.action_tables[3].discards@);
        assert(lists_shaped(ts, ds)) by {
            assert forall|x: u8| x < 4 implies all_takes_of(#[trigger] ts[x as int], x)
                && all_discards_of(ds[x as int], x) by {
                if x == 0 {
                } else if x == 1 {
                } else if x == 2 {
                } else {
                }
            }
        }
        assert(empty_choices().len() == BACKTRACK_SLOTS);
        lemma_retry_projects(k, ts, ds, empty_choices(), MAX_RETRIES as nat, None);
        if let Ok(evs) = kyoku_events(k) {
            assert(is_prefix(takes_of(evs, b), ts[b as int]));
            assert(is_prefix(discards_of(evs, b), ds[b as int]));
        }
    }
}


/// Two steps of a walk that agree: the same next walk and record, events
/// that say the same, or the same failure.
pub open spec fn same_step(x: Step, y: Step) -> bool {
    match (x, y) {
        (Step::Next(w1, b1), Step::Next(w2, b2)) => w1 == w2 && b1 == b2,
        (Step::Done(e1), Step::Done(e2)) => same_events(e1, e2),
        (Step::Fail(f1), Step::Fail(f2)) => f1 == f2,
        _ => false,
    }
}

/// Two outcomes that agree: events that say the same, or the same failure.
pub open spec fn same_outcome(x: Result<Seq<Event>, Failure>, y: Result<Seq<Event>, Failure>) -> bool {
    match (x, y) {
        (Ok(e1), Ok(e2)) => same_events(e1, e2),
        (Err(f1), Err(f2)) => f1 == f2,
        _ => false,
    }
}

/// Every list says the same as itself.
proof fn lemma_same_events_refl(x: Seq<Event>)
    ensures
        same_events(x, x),
{
}

/// Kyokus that hold the same end in the same way.
proof fn lemma_end_same(a: Kyoku, b: Kyoku)
    requires
        same_kyoku(a, b),
    ensures
        same_events(end_events(a), end_events(b)),
        forall|x: Seq<Event>| #[trigger] same_events(x + end_events(a), x + end_events(b)),
{
    assert(same_events(end_events(a), end_events(b)));
    assert forall|x: Seq<Event>| #[trigger] same_events(x + end_events(a), x + end_events(b)) by {
        lemma_same_events_refl(x);
        lemma_same_events_concat(x, x, end_events(a), end_events(b));
    }
}

/// A step goes alike in kyokus that hold the same.
proof fn lemma_step_same(a: Kyoku, b: Kyoku, ts: Seq<Seq<Event>>, ds: Seq<Seq<Event>>, w: Walk, bt: Seq<u8>)
    requires
        same_kyoku(a, b),
    ensures
        same_step(step(a, ts, ds, w, bt), step(b, ts, ds, w, bt)),
{
    lemma_end_same(a, b);
}


/// A walk goes alike in kyokus that hold the same.
proof fn lemma_walk_same(
    a: Kyoku,
    b: Kyoku,
    ts: Seq<Seq<Event>>,
    ds: Seq<Seq<Event>>,
    w: Walk,
    bt: Seq<u8>,
    fuel: nat,
)
    requires
        same_kyoku(a, b),
    ensures
        same_outcome(walk(a, ts, ds, w, bt, fuel).0, walk(b, ts, ds, w, bt, fuel).0),
        walk(a, ts, ds, w, bt, fuel).1 == walk(b, ts, ds, w, bt, fuel).1,
    decreases fuel,
{
    if fuel > 0 {
        lemma_step_same(a, b, ts, ds, w, bt);
        match step(a, ts, ds, w, bt) {
            Step::Next(w2, bt2) => {
                lemma_walk_same(a, b, ts, ds, w2, bt2, (fuel - 1) as nat);
            },
            _ => {},
        }
    }
}

/// An attempt goes alike in kyokus that hold the same.
proof fn lemma_attempt_same(a: Kyoku, b: Kyoku, ts: Seq<Seq<Event>>, ds: Seq<Seq<Event>>, bt: Seq<u8>)
    requires
        same_kyoku(a, b),
    ensures
        same_outcome(attempt(a, ts, ds, bt).0, attempt(b, ts, ds, bt).0),
        attempt(a, ts, ds, bt).1 == attempt(b, ts, ds, bt).1,
{
    assert(a.action_tables[0].haipai == b.action_tables[0].haipai);
    assert(a.action_tables[1].haipai == b.action_tables[1].haipai);
    assert(a.action_tables[2].haipai == b.action_tables[2].haipai);
    assert(a.action_tables[3].haipai == b.action_tables[3].haipai);
    if a.dora_indicators@.len() > 0 {
        assert(start_kyoku_event(a) == start_kyoku_event(b));
        assert(start_walk(a) == start_walk(b));
        lemma_walk_same(
            a,
            b,
            ts,
            ds,
            start_walk(a),
            bt,
            (takes_left(ts, seq![0int, 0, 0, 0]) + 1) as nat,
        );
    }
}

/// The attempts go alike in kyokus that hold the same.
proof fn lemma_retry_same(
    a: Kyoku,
    b: Kyoku,
    ts: Seq<Seq<Event>>,
    ds: Seq<Seq<Event>>,
    bt: Seq<u8>,
    n: nat,
    first: Option<Failure>,
)
    requires
        same_kyoku(a, b),
    ensures
        same_outcome(retry(a, ts, ds, bt, n, first), retry(b, ts, ds, bt, n, first)),
    decreases n,
{
    reveal(retry);
    lemma_attempt_same(a, b, ts, ds, bt);
    let (r, bt2) = attempt(a, ts, ds, bt);
    match r {
        Ok(_) => {},
        Err(e) => {
            let f = match first {
                Some(x) => x,
                None => e,
            };
            if !(no_choices(bt2) || n == 0) {
                lemma_retry_same(a, b, ts, ds, bt2, (n - 1) as nat, Some(f));
            }
        },
    }
}

/// Reading the players' lists goes alike in kyokus that hold the same.
proof fn lemma_parse_upto_same(a: Kyoku, b: Kyoku, n: int)
    requires
        same_kyoku(a, b),
        n <= 4,
    ensures
        parse_upto(a, n) == parse_upto(b, n),
    decreases n,
{
    if n > 0 {
        lemma_parse_upto_same(a, b, n - 1);
        assert(a.action_tables[n - 1].takes@ == b.action_tables[n - 1].takes@);
        assert(a.action_tables[n - 1].discards@ == b.action_tables[n - 1].discards@);
    }
}

/// Kyokus that hold the same convert to events that say the same, or fail
/// alike.
pub proof fn law_same_kyoku_same_events(a: Kyoku, b: Kyoku)
    requires
        same_kyoku(a, b),
    ensures
        same_outcome(kyoku_events(a), kyoku_events(b)),
{
    reveal(kyoku_events);
    lemma_parse_upto_same(a, b, 4);
    match parse_upto(a, 4) {
        Err(_) => {},
        Ok((ts, ds)) => {
            lemma_retry_same(a, b, ts, ds, empty_choices(), MAX_RETRIES as nat, None);
        },
    }
}


/// Two logs that hold the same: the same names, game length and red fives,
/// and kyokus that hold the same, one for one.
pub open spec fn same_log(x: Log, y: Log) -> bool {
    &&& names_view(x.names) == names_view(y.names)
    &&& x.game_length == y.game_length
    &&& x.has_aka == y.has_aka
    &&& x.kyokus@.len() == y.kyokus@.len()
    &&& forall|i: int| 0 <= i < x.kyokus@.len() ==> same_kyoku(#[trigger] x.kyokus@[i], y.kyokus@[i])
}

/// The kyokus of logs that hold the same convert alike, one after another.
proof fn lemma_log_events_same(x: Log, y: Log, i: int)
    requires
        same_log(x, y),
        i <= x.kyokus@.len(),
    ensures
        same_outcome(log_events(x, i), log_events(y, i)),
    decreases i,
{
    if i > 0 {
        lemma_log_events_same(x, y, i - 1);
        law_same_kyoku_same_events(x.kyokus@[i - 1], y.kyokus@[i - 1]);
        match (log_events(x, i - 1), kyoku_events(x.kyokus@[i - 1])) {
            (Ok(es1), Ok(ks1)) => {
                let es2 = log_events(y, i - 1)->Ok_0;
                let ks2 = kyoku_events(y.kyokus@[i - 1])->Ok_0;
                lemma_same_events_concat(es1, es2, ks1, ks2);
            },
            _ => {},
        }
    }
}

/// Logs that hold the same convert to streams that say the same, or fail
/// alike.
pub proof fn law_same_log_same_stream(x: Log, y: Log)
    requires
        same_log(x, y),
    ensures
        same_outcome(mjai_events(x), mjai_events(y)),
{
    lemma_log_events_same(x, y, x.kyokus@.len() as int);
    match log_events(x, x.kyokus@.len() as int) {
        Ok(es1) => {
            let es2 = log_events(y, y.kyokus@.len() as int)->Ok_0;
            assert(same_events(seq![start_game_event(x)], seq![start_game_event(y)]));
            lemma_same_events_concat(seq![start_game_event(x)], seq![start_game_event(y)], es1, es2);
            lemma_same_events_concat(
                seq![start_game_event(x)] + es1,
                seq![start_game_event(y)] + es2,
                seq![Event::EndGame],
                seq![Event::EndGame],
            );
        },
        Err(_) => {},
    }
}

/// Splitting a log by kyoku, reading each piece alone and joining the
/// kyokus read gives a log that converts as the whole log does: streams
/// that say the same, or the same failure.
pub proof fn law_split_converts_as_whole(whole: RawLog, log: Log, joined: Log)
    requires
        log_from_raw(log, whole),
        names_view(joined.names) == names_view(log.names),
        joined.game_length == log.game_length,
        joined.has_aka == log.has_aka,
        joined.kyokus@.len() == whole.logs@.len(),
        forall|i: int|
            0 <= i < whole.logs@.len() ==> exists|part: RawLog, plog: Log|
                {
                    &&& piece_of(part, whole, i)
                    &&& log_from_raw(plog, part)
                    &&& #[trigger] joined.kyokus@[i] == plog.kyokus@[0]
                },
    ensures
        same_outcome(mjai_events(log), mjai_events(joined)),
{
    assert forall|i: int| 0 <= i < log.kyokus@.len() implies same_kyoku(
        #[trigger] log.kyokus@[i],
        joined.kyokus@[i],
    ) by {
        let (part, plog) = choose|part: RawLog, plog: Log|
            {
                &&& piece_of(part, whole, i)
                &&& log_from_raw(plog, part)
                &&& #[trigger] joined.kyokus@[i] == plog.kyokus@[0]
            };
        crate::tenhou::law_piece_reads_as_whole(whole, log, i, part, plog);
        crate::tenhou::lemma_same_kyoku_symmetric(plog.kyokus@[0], log.kyokus@[i]);
    }
    law_same_log_same_stream(log, joined);
}


/// A backtracking record as the walk leaves it: one slot per tenhou number,
/// each holding 0, 1 or 2, and 0 at every number that names no tile.
pub open spec fn record_ok(bt: Seq<u8>) -> bool {
    &&& bt.len() == BACKTRACK_SLOTS
    &&& forall|i: int| 0 <= i < bt.len() ==> #[trigger] bt[i] <= 2
    &&& forall|i: int| 0 <= i < bt.len() && Pai::from_id(i) is None ==> #[trigger] bt[i] == 0
}

/// A choice keeps the record as the walk leaves it.
proof fn lemma_next_actor_record(ts: Seq<Seq<Event>>, ds: Seq<Seq<Event>>, w: Walk, bt: Seq<u8>)
    requires
        record_ok(bt),
    ensures
        record_ok(next_actor(ts, ds, w, bt).1),
{
    crate::pai::law_id_roundtrip(w.last_dahai, 0);
}

/// A step keeps the record as the walk leaves it.
proof fn lemma_step_record(k: Kyoku, ts: Seq<Seq<Event>>, ds: Seq<Seq<Event>>, w: Walk, bt: Seq<u8>)
    requires
        record_ok(bt),
    ensures
        step(k, ts, ds, w, bt) matches Step::Next(_, bt2) ==> record_ok(bt2),
{
    assert forall|w2: Walk| #[trigger] next_actor(ts, ds, w2, bt).1 == next_actor(ts, ds, w2, bt).1
        implies record_ok(next_actor(ts, ds, w2, bt).1) by {
        lemma_next_actor_record(ts, ds, w2, bt);
    }
}

/// A walk keeps the record as the walk leaves it.
proof fn lemma_walk_record(
    k: Kyoku,
    ts: Seq<Seq<Event>>,
    ds: Seq<Seq<Event>>,
    w: Walk,
    bt: Seq<u8>,
    fuel: nat,
)
    requires
        record_ok(bt),
    ensures
        record_ok(walk(k, ts, ds, w, bt, fuel).1),
    decreases fuel,
{
    if fuel > 0 {
        lemma_step_record(k, ts, ds, w, bt);
        match step(k, ts, ds, w, bt) {
            Step::Next(w2, bt2) => lemma_walk_record(k, ts, ds, w2, bt2, (fuel - 1) as nat),
            _ => {},
        }
    }
}

/// An attempt keeps the record as the walk leaves it.
proof fn lemma_attempt_record(k: Kyoku, ts: Seq<Seq<Event>>, ds: Seq<Seq<Event>>, bt: Seq<u8>)
    requires
        record_ok(bt),
    ensures
        record_ok(attempt(k, ts, ds, bt).1),
{
    if k.dora_indicators@.len() > 0 {
        lemma_walk_record(
            k,
            ts,
            ds,
            start_walk(k),
            bt,
            (takes_left(ts, seq![0int, 0, 0, 0]) + 1) as nat,
        );
    }
}


/// The number of tenhou numbers that name a tile.
pub open spec fn num_keys() -> int {
    38
}

/// The `j`-th tenhou number that names a tile, in increasing order.
pub open spec fn key_of(j: int) -> int {
    if j == 0 {
        0
    } else if j <= 9 {
        j + 10
    } else if j <= 18 {
        j + 11
    } else if j <= 27 {
        j + 12
    } else if j <= 34 {
        j + 13
    } else {
        j + 16
    }
}

/// The place of a tenhou number among those that name a tile.
pub open spec fn slot_of(i: int) -> int {
    if i == 0 {
        0
    } else if i <= 19 {
        i - 10
    } else if i <= 29 {
        i - 11
    } else if i <= 39 {
        i - 12
    } else if i <= 47 {
        i - 13
    } else {
        i - 16
    }
}

/// The numbers that name a tile are exactly those listed by `key_of`.
proof fn lemma_keys(i: int)
    requires
        0 <= i < BACKTRACK_SLOTS,
        Pai::from_id(i) is Some,
    ensures
        0 <= slot_of(i) < num_keys(),
        key_of(slot_of(i)) == i,
{
}

/// Three to the `n`.
pub open spec fn pow3(n: nat) -> int
    decreases n,
{
    if n == 0 {
        1
    } else {
        3 * pow3((n - 1) as nat)
    }
}

/// The record's slots of the first `n` tile numbers read as a base-3
/// number.
pub open spec fn record_code(bt: Seq<u8>, n: nat) -> int
    decreases n,
{
    if n == 0 {
        0
    } else {
        record_code(bt, (n - 1) as nat) + bt[key_of(n - 1)] * pow3((n - 1) as nat)
    }
}

/// The code of a record lies below three to the number of slots read.
proof fn lemma_code_bound(bt: Seq<u8>, n: nat)
    requires
        record_ok(bt),
        n <= num_keys(),
    ensures
        0 <= record_code(bt, n) < pow3(n),
    decreases n,
{
    if n > 0 {
        lemma_code_bound(bt, (n - 1) as nat);
        let c = record_code(bt, (n - 1) as nat);
        let d = bt[key_of(n - 1)] as int;
        let p = pow3((n - 1) as nat);
        assert(0 <= key_of(n - 1) < BACKTRACK_SLOTS);
        assert(0 <= d <= 2);
        assert(0 <= c + d * p < 3 * p) by (nonlinear_arith)
            requires
                0 <= c < p,
                0 <= d <= 2,
        ;
    }
}

/// Records with one code agree on the slots read.
proof fn lemma_code_injective(a: Seq<u8>, b: Seq<u8>, n: nat)
    requires
        record_ok(a),
        record_ok(b),
        n <= num_keys(),
        record_code(a, n) == record_code(b, n),
    ensures
        forall|j: int| 0 <= j < n ==> a[key_of(j)] == b[#[trigger] key_of(j)],
    decreases n,
{
    if n > 0 {
        lemma_code_bound(a, (n - 1) as nat);
        lemma_code_bound(b, (n - 1) as nat);
        let ca = record_code(a, (n - 1) as nat);
        let cb = record_code(b, (n - 1) as nat);
        let da = a[key_of(n - 1)] as int;
        let db = b[key_of(n - 1)] as int;
        let p = pow3((n - 1) as nat);
        assert(0 <= key_of(n - 1) < BACKTRACK_SLOTS);
        assert(da == db && ca == cb) by (nonlinear_arith)
            requires
                0 <= ca < p,
                0 <= cb < p,
                0 <= da <= 2,
                0 <= db <= 2,
                ca + da * p == cb + db * p,
        ;
        lemma_code_injective(a, b, (n - 1) as nat);
    }
}

/// Records with one code are the same record.
proof fn lemma_code_determines(a: Seq<u8>, b: Seq<u8>)
    requires
        record_ok(a),
        record_ok(b),
        record_code(a, num_keys() as nat) == record_code(b, num_keys() as nat),
    ensures
        a == b,
{
    lemma_code_injective(a, b, num_keys() as nat);
    assert forall|i: int| 0 <= i < a.len() implies a[i] == b[i] by {
        if Pai::from_id(i) is Some {
            lemma_keys(i);
            assert(a[key_of(slot_of(i))] == b[key_of(slot_of(i))]);
        }
    }
    assert(a =~= b);
}


/// The backtracking record after `j` attempts from `bt`, each started with
/// the record the last one left.
pub open spec fn record_after(
    k: Kyoku,
    ts: Seq<Seq<Event>>,
    ds: Seq<Seq<Event>>,
    bt: Seq<u8>,
    j: nat,
) -> Seq<u8>
    decreases j,
{
    if j == 0 {
        bt
    } else {
        attempt(k, ts, ds, record_after(k, ts, ds, bt, (j - 1) as nat)).1
    }
}

/// The attempt with this record ends the conversion of the kyoku: it
/// succeeds, or it fails and leaves no choice to try.
pub open spec fn ends_here(k: Kyoku, ts: Seq<Seq<Event>>, ds: Seq<Seq<Event>>, bt: Seq<u8>) -> bool {
    let (r, bt2) = attempt(k, ts, ds, bt);
    r is Ok || no_choices(bt2)
}

/// Going on from a later record is going on from the start.
proof fn lemma_record_after_shift(
    k: Kyoku,
    ts: Seq<Seq<Event>>,
    ds: Seq<Seq<Event>>,
    bt: Seq<u8>,
    x: nat,
    t: nat,
)
    ensures
        record_after(k, ts, ds, bt, x + t) == record_after(
            k,
            ts,
            ds,
            record_after(k, ts, ds, bt, x),
            t,
        ),
    decreases t,
{
    if t > 0 {
        lemma_record_after_shift(k, ts, ds, bt, x, (t - 1) as nat);
        assert((x + t - 1) as nat == x + (t - 1) as nat);
    }
}

/// Every record the attempts leave is as the walk leaves it.
proof fn lemma_record_after_ok(k: Kyoku, ts: Seq<Seq<Event>>, ds: Seq<Seq<Event>>, bt: Seq<u8>, j: nat)
    requires
        record_ok(bt),
    ensures
        record_ok(record_after(k, ts, ds, bt, j)),
    decreases j,
{
    if j > 0 {
        lemma_record_after_ok(k, ts, ds, bt, (j - 1) as nat);
        lemma_attempt_record(k, ts, ds, record_after(k, ts, ds, bt, (j - 1) as nat));
    }
}

/// Once the attempts end by the `j`-th, any bound on them of at least `j`
/// gives the same result.
proof fn lemma_retry_stable(
    k: Kyoku,
    ts: Seq<Seq<Event>>,
    ds: Seq<Seq<Event>>,
    bt: Seq<u8>,
    j: nat,
    n1: nat,
    n2: nat,
    first: Option<Failure>,
)
    requires
        ends_here(k, ts, ds, record_after(k, ts, ds, bt, j)),
        n1 >= j,
        n2 >= j,
    ensures
        retry(k, ts, ds, bt, n1, first) == retry(k, ts, ds, bt, n2, first),
    decreases j,
{
    reveal(retry);
    let (r, bt2) = attempt(k, ts, ds, bt);
    match r {
        Ok(_) => {},
        Err(e) => {
            let f = match first {
                Some(x) => x,
                None => e,
            };
            if !no_choices(bt2) {
                assert(j > 0);
                lemma_record_after_shift(k, ts, ds, bt, 1, (j - 1) as nat);
                assert(record_after(k, ts, ds, bt, 1) == bt2) by {
                    assert(record_after(k, ts, ds, bt, 0) == bt);
                }
                assert((1 + (j - 1) as nat) as nat == j);
                lemma_retry_stable(k, ts, ds, bt2, (j - 1) as nat, (n1 - 1) as nat, (n2 - 1) as nat, Some(f));
            }
        },
    }
}

/// The first attempt from `i` on that ends the conversion.
proof fn first_end_from(
    k: Kyoku,
    ts: Seq<Seq<Event>>,
    ds: Seq<Seq<Event>>,
    bt: Seq<u8>,
    i: nat,
    j: nat,
) -> (j0: nat)
    requires
        i <= j,
        ends_here(k, ts, ds, record_after(k, ts, ds, bt, j)),
        forall|t: nat| t < i ==> !ends_here(k, ts, ds, #[trigger] record_after(k, ts, ds, bt, t)),
    ensures
        j0 <= j,
        ends_here(k, ts, ds, record_after(k, ts, ds, bt, j0)),
        forall|t: nat| t < j0 ==> !ends_here(k, ts, ds, #[trigger] record_after(k, ts, ds, bt, t)),
    decreases j - i,
{
    if ends_here(k, ts, ds, record_after(k, ts, ds, bt, i)) {
        i
    } else {
        first_end_from(k, ts, ds, bt, i + 1, j)
    }
}

/// Before the attempts end, no record comes back: a record that came back
/// would make the attempts go round for ever.
proof fn lemma_records_distinct(
    k: Kyoku,
    ts: Seq<Seq<Event>>,
    ds: Seq<Seq<Event>>,
    bt: Seq<u8>,
    j0: nat,
    a: nat,
    b: nat,
)
    requires
        ends_here(k, ts, ds, record_after(k, ts, ds, bt, j0)),
        forall|t: nat| t < j0 ==> !ends_here(k, ts, ds, #[trigger] record_after(k, ts, ds, bt, t)),
        a < b <= j0,
    ensures
        record_after(k, ts, ds, bt, a) != record_after(k, ts, ds, bt, b),
{
    if record_after(k, ts, ds, bt, a) == record_after(k, ts, ds, bt, b) {
        let t = (j0 - b) as nat;
        lemma_record_after_shift(k, ts, ds, bt, a, t);
        lemma_record_after_shift(k, ts, ds, bt, b, t);
        assert((b + t) as nat == j0);
        let e = (a + t) as nat;
        assert(e < j0);
        assert(!ends_here(k, ts, ds, record_after(k, ts, ds, bt, e)));
    }
}

/// The attempts from the empty record that end do so within three to the
/// number of tile numbers of them: each starts with a record not seen
/// before, and there are no more records than that.
proof fn lemma_end_within_records(k: Kyoku, ts: Seq<Seq<Event>>, ds: Seq<Seq<Event>>, j0: nat)
    requires
        ends_here(k, ts, ds, record_after(k, ts, ds, empty_choices(), j0)),
        forall|t: nat|
            t < j0 ==> !ends_here(k, ts, ds, #[trigger] record_after(k, ts, ds, empty_choices(), t)),
    ensures
        j0 + 1 <= pow3(num_keys() as nat),
{
    let bt = empty_choices();
    assert(record_ok(bt));
    let n = num_keys() as nat;
    let cs = Seq::new(j0 + 1, |i: int| record_code(record_after(k, ts, ds, bt, i as nat), n));
    assert forall|x: int, y: int| 0 <= x < cs.len() && 0 <= y < cs.len() && x != y implies cs[x]
        != cs[y] by {
        let (lo, hi) = if x < y {
            (x as nat, y as nat)
        } else {
            (y as nat, x as nat)
        };
        lemma_records_distinct(k, ts, ds, bt, j0, lo, hi);
        lemma_record_after_ok(k, ts, ds, bt, lo);
        lemma_record_after_ok(k, ts, ds, bt, hi);
        if cs[x] == cs[y] {
            lemma_code_determines(record_after(k, ts, ds, bt, lo), record_after(k, ts, ds, bt, hi));
        }
    }
    assert(cs.no_duplicates());
    cs.unique_seq_to_set();
    assert forall|c: int| cs.to_set().contains(c) implies set_int_range(0, pow3(n)).contains(c) by {
        assert(cs.contains(c));
        let w = choose|w: int| 0 <= w < cs.len() && cs[w] == c;
        lemma_record_after_ok(k, ts, ds, bt, w as nat);
        lemma_code_bound(record_after(k, ts, ds, bt, w as nat), n);
    }
    lemma_code_bound(bt, n);
    lemma_int_range(0, pow3(n));
    lemma_len_subset(cs.to_set(), set_int_range(0, pow3(n)));
}

/// The bound on the attempts at a kyoku never decides the result: wherever
/// trying again and again with the choices left would end, after any
/// number `j` of retries, the bounded attempts give what `j` retries give.
pub proof fn law_retries_suffice(k: Kyoku, ts: Seq<Seq<Event>>, ds: Seq<Seq<Event>>, j: nat)
    requires
        ends_here(k, ts, ds, record_after(k, ts, ds, empty_choices(), j)),
    ensures
        retry(k, ts, ds, empty_choices(), MAX_RETRIES as nat, None) == retry(
            k,
            ts,
            ds,
            empty_choices(),
            j,
            None,
        ),
{
    let bt = empty_choices();
    let j0 = first_end_from(k, ts, ds, bt, 0, j);
    lemma_end_within_records(k, ts, ds, j0);
    assert(pow3(38) == 1350851717672992089) by {
        reveal_with_fuel(pow3, 39);
    }
    lemma_retry_stable(k, ts, ds, bt, j0, MAX_RETRIES as nat, j, None);
}


/// The events of a kyoku are what trying again and again with the choices
/// left gives, wherever that ends: after `j` retries that leave a choice,
/// the `j`-th retry succeeds or leaves none.
pub proof fn law_kyoku_events_unbounded(k: Kyoku, j: nat)
    requires
        parse_upto(k, 4) matches Ok((ts, ds)) && ends_here(
            k,
            ts,
            ds,
            record_after(k, ts, ds, empty_choices(), j),
        ),
    ensures
        parse_upto(k, 4) matches Ok((ts, ds)) && kyoku_events(k) == retry(
            k,
            ts,
            ds,
            empty_choices(),
            j,
            None,
        ),
{
    reveal(kyoku_events);
    let (ts, ds) = parse_upto(k, 4)->Ok_0;
    law_retries_suffice(k, ts, ds, j);
}


/// The events open with the start of kyoku `k` carrying its own numbers:
/// the round wind of its number, its number within the wind (from 1), its
/// honba and the riichi sticks left on the table, its first dora indicator,
/// its dealer, its scores and the four dealt hands.
pub open spec fn opens_with_numbers_of(evs: Seq<Event>, k: Kyoku) -> bool {
    &&& evs.len() > 0
    &&& k.dora_indicators@.len() > 0
    &&& match evs[0] {
        Event::StartKyoku { bakaze, dora_marker, kyoku, honba, kyotaku, oya, scores, tehais } => {
            &&& kyotaku == k.meta.kyotaku
            &&& honba == k.meta.honba
            &&& kyoku == k.meta.kyoku_num % 4 + 1
            &&& oya == k.meta.kyoku_num % 4
            &&& bakaze == if k.meta.kyoku_num < 4 {
                Pai::East
            } else if k.meta.kyoku_num < 8 {
                Pai::South
            } else if k.meta.kyoku_num < 12 {
                Pai::West
            } else {
                Pai::North
            }
            &&& dora_marker == k.dora_indicators@[0]
            &&& scores == k.scoreboard
            &&& forall|j: int| 0 <= j < 4 ==> #[trigger] tehais[j] == k.action_tables[j].haipai
        },
        _ => false,
    }
}

/// The start of each converted kyoku carries that kyoku's own numbers, the
/// riichi sticks on the table among them.
pub proof fn law_kyoku_start(k: Kyoku)
    ensures
        kyoku_events(k) is Ok ==> opens_with_numbers_of(kyoku_events(k)->Ok_0, k),
{
    law_kyoku_framed(k);
    lemma_events_have_dora(k);
}

/// A kyoku without dora indicators fails every attempt.
proof fn lemma_retry_needs_dora(
    k: Kyoku,
    ts: Seq<Seq<Event>>,
    ds: Seq<Seq<Event>>,
    bt: Seq<u8>,
    n: nat,
    first: Option<Failure>,
)
    requires
        k.dora_indicators@.len() == 0,
    ensures
        retry(k, ts, ds, bt, n, first) is Err,
    decreases n,
{
    reveal(retry);
    let (r, bt2) = attempt(k, ts, ds, bt);
    if let Err(e) = r {
        let f = match first {
            Some(x) => x,
            None => e,
        };
        if !(no_choices(bt2) || n == 0) {
            lemma_retry_needs_dora(k, ts, ds, bt2, (n - 1) as nat, Some(f));
        }
    }
}

/// A kyoku that converts has a dora indicator.
proof fn lemma_events_have_dora(k: Kyoku)
    ensures
        kyoku_events(k) is Ok ==> k.dora_indicators@.len() > 0,
{
    reveal(kyoku_events);
    if k.dora_indicators@.len() == 0 {
        if let Ok((ts, ds)) = parse_upto(k, 4) {
            lemma_retry_needs_dora(k, ts, ds, empty_choices(), MAX_RETRIES as nat, None);
        }
    }
}


/// A kyoku that ends in wins closes with one win event per winner, in the
/// order of its details, each with that winner, loser and score changes,
/// and then the end of the kyoku; a draw closes with the draw and the end.
pub proof fn law_end_events_per_winner(k: Kyoku)
    ensures
        k.end_status matches EndStatus::Hora { details } ==> {
            &&& end_events(k).len() == details@.len() + 1
            &&& end_events(k).last() == Event::EndKyoku
            &&& forall|j: int|
                0 <= j < details@.len() ==> (#[trigger] end_events(k)[j] matches Event::Hora {
                    actor,
                    target,
                    deltas,
                    ..
                } && actor == details@[j].who && target == details@[j].target && deltas == Some(
                    details@[j].score_deltas,
                ))
        },
        k.end_status matches EndStatus::Ryukyoku { score_deltas } ==> end_events(k) == seq![
            Event::Ryukyoku { deltas: Some(score_deltas) },
            Event::EndKyoku,
        ],
{
}


/// The stream of a log opens with the start of the game carrying the log's
/// own player names, the number that mjai gives its length (0 for a
/// hanchan, 4 for an east-only game) and whether red fives are used.
pub proof fn law_stream_start(log: Log)
    ensures
        mjai_events(log) is Ok ==> (mjai_events(log)->Ok_0[0] matches Event::StartGame {
            names,
            kyoku_first,
            aka_flag,
        } && names == log.names && aka_flag == log.has_aka && kyoku_first == match log.game_length {
            crate::tenhou::GameLength::Hanchan => 0u8,
            crate::tenhou::GameLength::Tonpuu => 4u8,
        }),
{
}

} // verus!
