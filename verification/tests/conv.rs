use mjai_reviewer::conv::{tenhou_to_mjai, ConvertError};
use mjai_reviewer::mjai::Event;
use mjai_reviewer::pai::Pai;
use mjai_reviewer::tenhou::{
    ActionItem, ActionTable, EndStatus, GameLength, HoraDetail, Kyoku, KyokuMeta, Log,
};

fn hand(p: Pai) -> [Pai; 13] {
    [p; 13]
}

fn tiles(v: &[Pai]) -> Vec<ActionItem> {
    v.iter().map(|p| ActionItem::Pai(*p)).collect()
}

fn table(haipai: Pai, takes: Vec<ActionItem>, discards: Vec<ActionItem>) -> ActionTable {
    ActionTable { haipai: hand(haipai), takes, discards }
}

fn kyoku(
    kyoku_num: u8,
    dora: Vec<Pai>,
    tables: [ActionTable; 4],
    end_status: EndStatus,
) -> Kyoku {
    Kyoku {
        meta: KyokuMeta { kyoku_num, honba: 1, kyotaku: 0 },
        scoreboard: [25000, 25000, 25000, 25000],
        dora_indicators: dora,
        ura_indicators: vec![Pai::Sou9],
        action_tables: tables,
        end_status,
    }
}

fn log(kyokus: Vec<Kyoku>) -> Log {
    Log {
        names: ["a".to_string(), "b".to_string(), "c".to_string(), "d".to_string()],
        game_length: GameLength::Hanchan,
        has_aka: true,
        kyokus,
    }
}

fn draw() -> EndStatus {
    EndStatus::Ryukyoku { score_deltas: [0, 0, 0, 0] }
}

fn empty() -> Vec<ActionItem> {
    Vec::new()
}

#[test]
fn dealer_wins_on_first_draw() {
    let k = kyoku(
        1,
        vec![Pai::Man1],
        [
            table(Pai::Man2, empty(), empty()),
            table(Pai::Man3, tiles(&[Pai::Pin5]), empty()),
            table(Pai::Man4, empty(), empty()),
            table(Pai::Man5, empty(), empty()),
        ],
        EndStatus::Hora {
            details: vec![HoraDetail { who: 1, target: 1, score_deltas: [-2000, 6000, -2000, -2000] }],
        },
    );
    let evs = tenhou_to_mjai(&log(vec![k])).unwrap();
    assert_eq!(evs.len(), 6);
    assert!(matches!(&evs[0], Event::StartGame { kyoku_first: 0, aka_flag: true, .. }));
    match &evs[1] {
        Event::StartKyoku { bakaze, dora_marker, kyoku, honba, kyotaku, oya, scores, tehais } => {
            assert_eq!(*bakaze, Pai::East);
            assert_eq!(*dora_marker, Pai::Man1);
            assert_eq!(*kyoku, 2);
            assert_eq!(*honba, 1);
            assert_eq!(*kyotaku, 0);
            assert_eq!(*oya, 1);
            assert_eq!(scores[0], 25000);
            assert_eq!(tehais[1][0], Pai::Man3);
        }
        other => panic!("unexpected {other:?}"),
    }
    assert!(matches!(evs[2], Event::Tsumo { actor: 1, pai: Pai::Pin5 }));
    match &evs[3] {
        Event::Hora { actor, target, deltas, ura_markers } => {
            assert_eq!((*actor, *target), (1, 1));
            assert_eq!(*deltas, Some([-2000, 6000, -2000, -2000]));
            assert_eq!(ura_markers.clone(), Some(vec![Pai::Sou9]));
        }
        other => panic!("unexpected {other:?}"),
    }
    assert!(matches!(evs[4], Event::EndKyoku));
    assert!(matches!(evs[5], Event::EndGame));
}

#[test]
fn turns_pass_to_the_next_seat_and_calls_jump() {
    // South 1: dealer is seat 0. Seat 0 discards 5p, seat 2 pons it from
    // its toimen, discards 9s; seat 3 draws and discards; all draws used.
    let k = kyoku(
        4,
        vec![Pai::Man1],
        [
            table(Pai::Man2, tiles(&[Pai::Pin1]), tiles(&[Pai::Pin5])),
            table(Pai::Man3, empty(), empty()),
            table(
                Pai::Man4,
                vec![ActionItem::Naki("25p2525".to_string())],
                tiles(&[Pai::Sou9]),
            ),
            table(Pai::Man5, tiles(&[Pai::Sou1]), vec![ActionItem::Tsumogiri(60)]),
        ],
        draw(),
    );
    let evs = tenhou_to_mjai(&log(vec![k])).unwrap();
    let kinds: Vec<String> = evs.iter().map(|e| format!("{e:?}")).collect();
    assert!(matches!(&evs[1], Event::StartKyoku { bakaze: Pai::South, kyoku: 1, oya: 0, .. }), "{kinds:?}");
    assert!(matches!(evs[2], Event::Tsumo { actor: 0, pai: Pai::Pin1 }));
    assert!(matches!(evs[3], Event::Dahai { actor: 0, pai: Pai::Pin5, tsumogiri: false }));
    match &evs[4] {
        Event::Pon { actor, target, pai, consumed } => {
            assert_eq!((*actor, *target, *pai), (2, 0, Pai::Pin5));
            assert_eq!(*consumed, [Pai::Pin5, Pai::Pin5]);
        }
        other => panic!("unexpected {other:?}"),
    }
    assert!(matches!(evs[5], Event::Dahai { actor: 2, pai: Pai::Sou9, tsumogiri: false }));
    assert!(matches!(evs[6], Event::Tsumo { actor: 3, pai: Pai::Sou1 }));
    // The tsumogiri takes the tile just drawn.
    assert!(matches!(evs[7], Event::Dahai { actor: 3, pai: Pai::Sou1, tsumogiri: true }));
    assert!(matches!(evs[8], Event::Ryukyoku { deltas: Some([0, 0, 0, 0]) }));
    assert!(matches!(evs[9], Event::EndKyoku));
    assert!(matches!(evs[10], Event::EndGame));
    assert_eq!(evs.len(), 11);
}

#[test]
fn riichi_is_accepted_at_the_next_draw() {
    let k = kyoku(
        0,
        vec![Pai::Man1],
        [
            table(Pai::Man2, tiles(&[Pai::Pin1]), vec![ActionItem::Naki("r60".to_string())]),
            table(Pai::Man3, tiles(&[Pai::Pin2]), empty()),
            table(Pai::Man4, empty(), empty()),
            table(Pai::Man5, empty(), empty()),
        ],
        draw(),
    );
    let evs = tenhou_to_mjai(&log(vec![k])).unwrap();
    assert!(matches!(evs[3], Event::Reach { actor: 0 }));
    assert!(matches!(evs[4], Event::Dahai { actor: 0, pai: Pai::Pin1, tsumogiri: true }));
    assert!(matches!(evs[5], Event::ReachAccepted { actor: 0 }));
    assert!(matches!(evs[6], Event::Tsumo { actor: 1, pai: Pai::Pin2 }));
}

#[test]
fn closed_kan_reveals_a_new_dora() {
    let k = kyoku(
        0,
        vec![Pai::Man1, Pai::Man2],
        [
            table(
                Pai::Man2,
                tiles(&[Pai::Pin1, Pai::Pin3]),
                vec![ActionItem::Naki("111111a11".to_string()), ActionItem::Pai(Pai::Pin3)],
            ),
            table(Pai::Man3, tiles(&[Pai::Pin2]), empty()),
            table(Pai::Man4, empty(), empty()),
            table(Pai::Man5, empty(), empty()),
        ],
        draw(),
    );
    let evs = tenhou_to_mjai(&log(vec![k])).unwrap();
    assert!(matches!(evs[3], Event::Ankan { actor: 0, consumed: [Pai::Man1, Pai::Man1, Pai::Man1, Pai::Man1] }));
    assert!(matches!(evs[4], Event::Dora { dora_marker: Pai::Man2 }));
    assert!(matches!(evs[5], Event::Tsumo { actor: 0, pai: Pai::Pin3 }));
    assert!(matches!(evs[6], Event::Dahai { actor: 0, pai: Pai::Pin3, tsumogiri: false }));
}

#[test]
fn empty_log_is_start_and_end_of_game() {
    let evs = tenhou_to_mjai(&log(vec![])).unwrap();
    assert_eq!(evs.len(), 2);
    assert!(matches!(evs[0], Event::StartGame { .. }));
    assert!(matches!(evs[1], Event::EndGame));
}

fn simple_tables(takes0: Vec<ActionItem>, discards0: Vec<ActionItem>) -> [ActionTable; 4] {
    [
        table(Pai::Man2, takes0, discards0),
        table(Pai::Man3, empty(), empty()),
        table(Pai::Man4, empty(), empty()),
        table(Pai::Man5, empty(), empty()),
    ]
}

#[test]
fn missing_dora_indicator_fails() {
    let k = kyoku(0, vec![], simple_tables(tiles(&[Pai::Pin1]), empty()), draw());
    match tenhou_to_mjai(&log(vec![k])) {
        Err(ConvertError::InsufficientDoraIndicators { kyoku: 0, honba: 1 }) => {}
        other => panic!("unexpected {other:?}"),
    }
}

#[test]
fn bad_call_strings_fail() {
    let k = kyoku(0, vec![Pai::Man1], simple_tables(vec![ActionItem::Naki("x".to_string())], empty()), draw());
    match tenhou_to_mjai(&log(vec![k])) {
        Err(ConvertError::InvalidNaki(s)) => assert_eq!(s, "x"),
        other => panic!("unexpected {other:?}"),
    }
    let k = kyoku(0, vec![Pai::Man1], simple_tables(vec![ActionItem::Naki("c990102".to_string())], empty()), draw());
    match tenhou_to_mjai(&log(vec![k])) {
        Err(ConvertError::InvalidPai(s)) => assert_eq!(s, "99"),
        other => panic!("unexpected {other:?}"),
    }
    let k = kyoku(0, vec![Pai::Man1], simple_tables(vec![ActionItem::Tsumogiri(60)], empty()), draw());
    assert!(matches!(tenhou_to_mjai(&log(vec![k])), Err(ConvertError::UnexpectedTsumogiri)));
}

#[test]
fn running_out_of_draws_or_discards_fails() {
    // Seat 0 discards but seat 1 has no draw while another seat still has one.
    let tables = [
        table(Pai::Man2, tiles(&[Pai::Pin1]), tiles(&[Pai::Pin1])),
        table(Pai::Man3, empty(), empty()),
        table(Pai::Man4, tiles(&[Pai::Pin2]), empty()),
        table(Pai::Man5, empty(), empty()),
    ];
    let k = kyoku(0, vec![Pai::Man1], tables, draw());
    assert!(matches!(
        tenhou_to_mjai(&log(vec![k])),
        Err(ConvertError::InsufficientTakes { kyoku: 0, honba: 1, actor: 1 })
    ));
    // A riichi with no discard after it.
    let k = kyoku(
        0,
        vec![Pai::Man1],
        [
            table(Pai::Man2, tiles(&[Pai::Pin1]), vec![ActionItem::Naki("r11".to_string())]),
            table(Pai::Man3, tiles(&[Pai::Pin2]), empty()),
            table(Pai::Man4, empty(), empty()),
            table(Pai::Man5, empty(), empty()),
        ],
        draw(),
    );
    let evs = tenhou_to_mjai(&log(vec![k])).unwrap();
    assert!(matches!(evs[4], Event::Dahai { actor: 0, pai: Pai::Man1, tsumogiri: false }));
}

#[test]
fn call_of_a_tile_not_discarded_fails() {
    let tables = [
        table(Pai::Man2, tiles(&[Pai::Pin1]), tiles(&[Pai::Pin1])),
        table(Pai::Man3, vec![ActionItem::Naki("p252525".to_string())], tiles(&[Pai::Pin2])),
        table(Pai::Man4, empty(), empty()),
        table(Pai::Man5, empty(), empty()),
    ];
    let k = kyoku(0, vec![Pai::Man1], tables, draw());
    match tenhou_to_mjai(&log(vec![k])) {
        Err(ConvertError::UnexpectedNaki { action, last_dahai, last_actor, kyoku, honba, actor }) => {
            assert!(matches!(action, Event::Pon { actor: 1, target: 0, pai: Pai::Pin5, .. }));
            assert_eq!(last_dahai, Pai::Pin1);
            assert_eq!(last_actor, Some(0));
            assert_eq!((kyoku, honba, actor), (0, 1, 1));
        }
        other => panic!("unexpected {other:?}"),
    }
}

#[test]
fn walk_ends_when_every_draw_is_used() {
    let k = kyoku(
        0,
        vec![Pai::Man1],
        [
            table(
                Pai::Man2,
                tiles(&[Pai::Pin1, Pai::Pin2]),
                vec![ActionItem::Pai(Pai::Pin1), ActionItem::Naki("r60".to_string())],
            ),
            table(Pai::Man3, tiles(&[Pai::Pin3]), tiles(&[Pai::Pin3])),
            table(Pai::Man4, tiles(&[Pai::Pin4]), tiles(&[Pai::Pin4])),
            table(Pai::Man5, tiles(&[Pai::Pin6]), tiles(&[Pai::Pin6])),
        ],
        draw(),
    );
    let evs = tenhou_to_mjai(&log(vec![k])).unwrap();
    assert!(matches!(evs[evs.len() - 2], Event::EndKyoku));
}

#[test]
fn tile_numbers_that_split_a_character_read_as_replacement() {
    let k = kyoku(0, vec![Pai::Man1], simple_tables(vec![ActionItem::Naki("c1é234".to_string())], empty()), draw());
    match tenhou_to_mjai(&log(vec![k])) {
        Err(ConvertError::InvalidPai(s)) => assert_eq!(s, "1\u{FFFD}"),
        other => panic!("unexpected {other:?}"),
    }
    let k = kyoku(0, vec![Pai::Man1], simple_tables(vec![ActionItem::Naki("cé1234".to_string())], empty()), draw());
    match tenhou_to_mjai(&log(vec![k])) {
        Err(ConvertError::InvalidPai(s)) => assert_eq!(s, "é"),
        other => panic!("unexpected {other:?}"),
    }
}

#[test]
fn chi_and_open_kan_strings_read() {
    // Seat 1 chis 7p from seat 0 with 5p (red) and 6p, then discards 1s.
    let tables = [
        table(Pai::Man2, tiles(&[Pai::Pin1]), tiles(&[Pai::Pin7])),
        table(Pai::Man3, vec![ActionItem::Naki("c275226".to_string())], tiles(&[Pai::Sou1])),
        table(Pai::Man4, empty(), empty()),
        table(Pai::Man5, empty(), empty()),
    ];
    let k = kyoku(0, vec![Pai::Man1], tables, draw());
    let evs = tenhou_to_mjai(&log(vec![k])).unwrap();
    match &evs[4] {
        Event::Chi { actor, target, pai, consumed } => {
            assert_eq!((*actor, *target, *pai), (1, 0, Pai::Pin7));
            assert_eq!(*consumed, [Pai::AkaPin5, Pai::Pin6]);
        }
        other => panic!("unexpected {other:?}"),
    }
    assert!(matches!(evs[5], Event::Dahai { actor: 1, pai: Pai::Sou1, tsumogiri: false }));
}
