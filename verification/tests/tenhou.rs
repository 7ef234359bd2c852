use mjai_reviewer::kyoku_filter::KyokuFilter;
use mjai_reviewer::pai::Pai;
use mjai_reviewer::tenhou::{
    ActionItem, EndStatus, GameLength, KyokuMeta, Log, ParseError, RawKyoku, RawLog, ResultItem,
    Rule,
};

fn raw_kyoku(kyoku_num: u8, honba: u8, results: Vec<ResultItem>) -> RawKyoku {
    RawKyoku {
        meta: KyokuMeta { kyoku_num, honba, kyotaku: 0 },
        scoreboard: [25000; 4],
        dora_indicators: vec![Pai::Man1],
        ura_indicators: vec![],
        haipai_0: [Pai::Man1; 13],
        takes_0: vec![ActionItem::Pai(Pai::Man2)],
        discards_0: vec![],
        haipai_1: [Pai::Man1; 13],
        takes_1: vec![],
        discards_1: vec![],
        haipai_2: [Pai::Man1; 13],
        takes_2: vec![],
        discards_2: vec![],
        haipai_3: [Pai::Man1; 13],
        takes_3: vec![],
        discards_3: vec![],
        results,
    }
}

fn rule(disp: &str, aka: u8) -> Rule {
    Rule { disp: disp.to_string(), aka, aka51: 0, aka52: 0, aka53: 0 }
}

fn raw(disp: &str, logs: Vec<RawKyoku>) -> RawLog {
    RawLog {
        logs,
        names: ["w".to_string(), "x".to_string(), "y".to_string(), "z".to_string()],
        rule: rule(disp, 1),
    }
}

fn win() -> Vec<ResultItem> {
    vec![
        ResultItem::Status("和了".to_string()),
        ResultItem::ScoreDeltas([0, 8000, -8000, 0]),
        ResultItem::HoraDetail(vec![Some(1), Some(2), Some(1), None]),
    ]
}

#[test]
fn reads_game_length_red_fives_and_results() {
    let log = Log::try_from_raw(raw("般南喰赤", vec![raw_kyoku(0, 0, win())])).unwrap();
    assert_eq!(log.game_length, GameLength::Hanchan);
    assert!(log.has_aka);
    assert_eq!(log.names[1], "x");
    match &log.kyokus[0].end_status {
        EndStatus::Hora { details } => {
            assert_eq!(details.len(), 1);
            assert_eq!((details[0].who, details[0].target), (1, 2));
            assert_eq!(details[0].score_deltas, [0, 8000, -8000, 0]);
        }
        other => panic!("unexpected {other:?}"),
    }
    let log = Log::try_from_raw(raw("East", vec![])).unwrap();
    assert_eq!(log.game_length, GameLength::Tonpuu);
    assert_eq!(GameLength::Tonpuu.as_u8(), 4);
    assert_eq!(GameLength::Hanchan.as_u8(), 0);
    let draw = vec![ResultItem::Status("流局".to_string()), ResultItem::ScoreDeltas([1500, -1500, 1500, -1500])];
    let log = Log::try_from_raw(raw("般南", vec![raw_kyoku(1, 2, draw)])).unwrap();
    match &log.kyokus[0].end_status {
        EndStatus::Ryukyoku { score_deltas } => assert_eq!(*score_deltas, [1500, -1500, 1500, -1500]),
        other => panic!("unexpected {other:?}"),
    }
}

#[test]
fn refuses_three_player_and_bad_wins() {
    assert!(matches!(Log::try_from_raw(raw("三般南", vec![])), Err(ParseError::NotFourPlayer)));
    assert!(matches!(Log::try_from_raw(raw("3-Player South", vec![])), Err(ParseError::NotFourPlayer)));
    let bad = vec![
        ResultItem::Status("和了".to_string()),
        ResultItem::ScoreDeltas([0, 8000, -8000, 0]),
        ResultItem::HoraDetail(vec![Some(1), None]),
    ];
    assert!(matches!(
        Log::try_from_raw(raw("般南", vec![raw_kyoku(0, 0, bad)])),
        Err(ParseError::InvalidHoraDetail)
    ));
}

#[test]
fn raw_logs_hide_names_and_filter_kyokus() {
    let mut r = raw("般南", vec![raw_kyoku(0, 0, win()), raw_kyoku(1, 0, win()), raw_kyoku(1, 1, win())]);
    assert_eq!(r.len(), 3);
    assert!(!r.is_empty());
    assert_eq!(r.get_names()[2], "y");
    r.hide_names();
    assert_eq!(r.get_names(), &["Aさん".to_string(), "Bさん".to_string(), "Cさん".to_string(), "Dさん".to_string()]);
    let parts = r.split_by_kyoku();
    assert_eq!(parts.len(), 3);
    assert_eq!(parts[2].index, 2);
    let one = parts[1].to_raw_log();
    assert_eq!(one.len(), 1);
    assert_eq!(one.logs[0].meta.kyoku_num, 1);
    assert_eq!(one.names[0], "Aさん");
    assert_eq!(one.rule.disp, "般南");
    drop(parts);
    let f = KyokuFilter::parse("E2.1,E1").unwrap();
    r.filter_kyokus(&f);
    assert_eq!(r.len(), 2);
    assert_eq!(r.logs[0].meta.kyoku_num, 0);
    assert_eq!((r.logs[1].meta.kyoku_num, r.logs[1].meta.honba), (1, 1));
    let f = KyokuFilter::parse("S4").unwrap();
    r.filter_kyokus(&f);
    assert!(r.is_empty());
}

#[test]
fn logs_filter_kyokus() {
    let mut log = Log::try_from_raw(raw("般南", vec![raw_kyoku(0, 0, win()), raw_kyoku(4, 0, win())])).unwrap();
    log.filter_kyokus(&KyokuFilter::parse("S1").unwrap());
    assert_eq!(log.kyokus.len(), 1);
    assert_eq!(log.kyokus[0].meta.kyoku_num, 4);
}
