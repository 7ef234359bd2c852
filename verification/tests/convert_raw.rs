use mjai_reviewer::conv::tenhou_to_mjai;
use mjai_reviewer::mjai::Event;
use mjai_reviewer::pai::Pai;
use mjai_reviewer::tenhou::{ActionItem, Kyoku, KyokuMeta, Log, RawKyoku, RawLog, ResultItem, Rule};

fn pais(ids: &[u8]) -> Vec<Pai> {
    ids.iter().map(|n| Pai::from_u8(*n).unwrap()).collect()
}

fn haipai(ids: &[u8]) -> [Pai; 13] {
    let v = pais(ids);
    let mut h = [Pai::Unknown; 13];
    h.copy_from_slice(&v);
    h
}

/// Items as a tenhou.net/6 log writes them: a number, or a call string.
fn items(v: &[&str]) -> Vec<ActionItem> {
    v.iter()
        .map(|s| match s.parse::<u8>() {
            Ok(n) => match Pai::from_u8(n) {
                Some(p) => ActionItem::Pai(p),
                None => ActionItem::Tsumogiri(n),
            },
            Err(_) => ActionItem::Naki(s.to_string()),
        })
        .collect()
}

fn sample_kyoku(kyoku_num: u8) -> RawKyoku {
    let ones = [11u8; 13];
    RawKyoku {
        meta: KyokuMeta { kyoku_num, honba: 0, kyotaku: 0 },
        scoreboard: [25000, 25000, 25000, 25000],
        dora_indicators: pais(&[47]),
        ura_indicators: vec![],
        haipai_0: haipai(&[12, 14, 51, 16, 22, 24, 31, 53, 36, 37, 16, 18, 44]),
        takes_0: items(&["42", "c171618", "47", "33", "46", "32", "47", "47", "19", "45", "21", "27", "22"]),
        discards_0: items(&["44", "31", "60", "60", "60", "60", "60", "60", "60", "60", "60", "42"]),
        haipai_1: haipai(&ones),
        takes_1: items(&["11", "11", "11", "29", "43", "11", "26", "11", "11", "11", "18", "38"]),
        discards_1: items(&["41", "44", "29", "60", "60", "12", "60", "46", "15", "31", "60", "60"]),
        haipai_2: haipai(&ones),
        takes_2: items(&["11", "41", "11", "32", "31", "11", "16", "11", "11", "13", "11", "17"]),
        discards_2: items(&["41", "60", "11", "60", "60", "42", "60", "37", "45", "60", "r35", "60"]),
        haipai_3: haipai(&ones),
        takes_3: items(&["11", "11", "11", "11", "27", "11", "11", "11", "11", "11", "11", "11"]),
        discards_3: items(&["17", "43", "44", "28", "60", "38", "32", "35", "31", "41", "11", "11"]),
        results: vec![ResultItem::Status("不明".to_string())],
    }
}

fn sample_raw(nums: &[u8]) -> RawLog {
    RawLog {
        logs: nums.iter().map(|n| sample_kyoku(*n)).collect(),
        names: [String::new(), String::new(), String::new(), String::new()],
        rule: Rule { disp: String::new(), aka: 1, aka51: 0, aka52: 0, aka53: 0 },
    }
}

#[test]
fn mod_parse_and_convert() {
    let raw = sample_raw(&[4]);
    let tenhou_log = Log::try_from_raw(raw).expect("failed to parse tenhou log");
    let mjai_log = tenhou_to_mjai(&tenhou_log).expect("failed to transform tenhou log");
    for log in &mjai_log {
        println!("{:?}", log);
    }
    assert!(!mjai_log.is_empty());
    assert!(matches!(mjai_log[0], Event::StartGame { .. }));
    assert!(matches!(mjai_log[mjai_log.len() - 1], Event::EndGame));
    assert!(mjai_log.iter().any(|e| matches!(e, Event::Chi { actor: 0, target: 3, pai: Pai::Man7, .. })));
    assert!(mjai_log.iter().any(|e| matches!(e, Event::Reach { actor: 2 })));
}

#[test]
fn test_split_by_kyoku() {
    let raw_log = sample_raw(&[0, 4]);
    let splited_raw_logs = raw_log.split_by_kyoku();
    assert_eq!(splited_raw_logs.len(), 2);
    let joined_kyokus: Vec<Kyoku> = splited_raw_logs
        .iter()
        .map(|p| p.to_raw_log())
        .map(|l| Log::try_from_raw(l).expect("invalid log"))
        .flat_map(|l| l.kyokus)
        .collect();
    let log = Log::try_from_raw(sample_raw(&[0, 4])).expect("invalid log");
    let joined_logs = Log { kyokus: joined_kyokus, ..Log::try_from_raw(sample_raw(&[0, 4])).expect("invalid log") };
    let mjai_log = tenhou_to_mjai(&log).expect("failed to transform tenhou");
    let mjai_log_joined = tenhou_to_mjai(&joined_logs).expect("failed to transform tenhou");
    assert_eq!(format!("{:?}", mjai_log), format!("{:?}", mjai_log_joined));
    assert!(mjai_log.len() > 4);
}

#[test]
fn test_parse_and_convert() {
    for (description, nums) in [("one kyoku", vec![4u8]), ("two kyokus", vec![0u8, 4])] {
        let tenhou_log = Log::try_from_raw(sample_raw(&nums))
            .unwrap_or_else(|_| panic!("failed to parse tenhou log (case: {})", description));
        let mjai_log = tenhou_to_mjai(&tenhou_log)
            .unwrap_or_else(|_| panic!("failed to transform tenhou log (case: {})", description));
        assert!(mjai_log.len() >= 4);
    }
}
