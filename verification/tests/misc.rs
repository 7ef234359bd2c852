use mjai_reviewer::log_source::{tenhou_query, QueryError};
use mjai_reviewer::log_source::LogSource;
use mjai_reviewer::mjsoul_deobfuse::decode_log_id;
use mjai_reviewer::opts::{parse_player_id, Engine};

#[test]
fn player_ids_are_zero_to_three() {
    assert_eq!(parse_player_id("0"), Ok(0));
    assert_eq!(parse_player_id("3"), Ok(3));
    assert_eq!(parse_player_id("+2"), Ok(2));
    assert_eq!(parse_player_id("4"), Err("4 is not within 0-3".to_string()));
    assert_eq!(parse_player_id(""), Err("cannot parse integer from empty string".to_string()));
    assert_eq!(parse_player_id("a"), Err("invalid digit found in string".to_string()));
    assert_eq!(parse_player_id("256"), Err("number too large to fit in target type".to_string()));
}

#[test]
fn engine_names() {
    assert_eq!(Engine::Mortal.to_string(), "mortal");
    assert_eq!(Engine::Akochan.name(), "akochan");
}

#[test]
fn default_report_names() {
    let t = LogSource::Tenhou("2019050417gm-0029-0000-4f2a8622".to_string());
    assert_eq!(
        t.default_output_filename(Engine::Mortal, 2),
        "mortal-2019050417gm-0029-0000-4f2a8622&tw=2"
    );
    assert_eq!(t.log_id(), Some("2019050417gm-0029-0000-4f2a8622"));
    let f = LogSource::File("log.json".to_string());
    assert_eq!(f.default_output_filename(Engine::Akochan, 1), "akochan-report");
    assert_eq!(f.log_id(), None);
    assert_eq!(f.default_output_filename(Engine::Mortal, 3), "mortal-report");
    assert_eq!(LogSource::Stdin.default_output_filename(Engine::Akochan, 0), "akochan-report");
    assert_eq!(
        LogSource::Tenhou("x".to_string()).default_output_filename(Engine::Akochan, 255),
        "akochan-x&tw=255"
    );
}

#[test]
fn mahjong_soul_ids_decode() {
    assert_eq!(decode_log_id("230718-abc_Z9"), "llhngm-mmm_Zg");
    assert_eq!(decode_log_id("0"), "j");
    assert_eq!(decode_log_id("zz"), "ih");
    assert_eq!(decode_log_id(""), "");
}

use mjai_reviewer::round_names::{kyoku_to_bakaze, kyoku_to_kyoku_in_bakaze, kyoku_to_string};

#[test]
fn kyoku_names() {
    assert_eq!(kyoku_to_bakaze(0), "East");
    assert_eq!(kyoku_to_bakaze(7), "South");
    assert_eq!(kyoku_to_bakaze(15), "North");
    assert_eq!(kyoku_to_kyoku_in_bakaze(6), 3);
    assert_eq!(kyoku_to_string(0, 0), "東一局");
    assert_eq!(kyoku_to_string(6, 2), "南三局 2 本場");
    assert_eq!(kyoku_to_string(11, 12), "西四局 12 本場");
}

#[test]
fn tenhou_url_queries() {
    let q = |v: &[(&str, &str)]| -> Vec<(String, String)> {
        v.iter().map(|(k, x)| (k.to_string(), x.to_string())).collect()
    };
    let r = tenhou_query(&q(&[("log", "2019050417gm-0029-0000-4f2a8622"), ("tw", "2")])).unwrap();
    assert_eq!(r, (Some("2019050417gm-0029-0000-4f2a8622".to_string()), Some(2)));
    let r = tenhou_query(&q(&[("x", "1"), ("log", "a")])).unwrap();
    assert_eq!(r, (Some("a".to_string()), None));
    // Reading stops once both are known: the later `tw` is not read.
    let r = tenhou_query(&q(&[("tw", "1"), ("log", "a"), ("tw", "x")])).unwrap();
    assert_eq!(r, (Some("a".to_string()), Some(1)));
    // A later `log` replaces an earlier one while `tw` is unknown.
    let r = tenhou_query(&q(&[("log", "a"), ("log", "b")])).unwrap();
    assert_eq!(r, (Some("b".to_string()), None));
    assert_eq!(tenhou_query(&q(&[("tw", "x")])), Err(QueryError::TwNotNumber));
    assert_eq!(tenhou_query(&q(&[("tw", "4")])), Err(QueryError::TwOutOfRange(4)));
    assert_eq!(tenhou_query(&q(&[])), Ok((None, None)));
}

#[test]
fn mahjong_soul_ids_decode_position_by_position() {
    // Each digit shifts back by 55 less its position; other characters stay.
    assert_eq!(decode_log_id("00"), "ji");
    assert_eq!(decode_log_id("-_"), "-_");
    // Different IDs of one length decode differently.
    assert_ne!(decode_log_id("ab"), decode_log_id("ba"));
    assert_ne!(decode_log_id("a-"), decode_log_id("b-"));
}
