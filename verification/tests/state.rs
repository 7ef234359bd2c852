use mjai_reviewer::mjai::Event;
use mjai_reviewer::pai::{get_pais_from_str, Pai};
use mjai_reviewer::state::{Fuuro, State, StateError};
use mjai_reviewer::tehai::Tehai;

fn start(tehai: [Pai; 13]) -> Event {
    Event::StartKyoku {
        bakaze: Pai::East,
        dora_marker: Pai::Man1,
        kyoku: 1,
        honba: 0,
        kyotaku: 0,
        oya: 0,
        scores: [25000; 4],
        tehais: [tehai, [Pai::Unknown; 13], [Pai::Unknown; 13], [Pai::Unknown; 13]],
    }
}

fn hand13(s: &str) -> [Pai; 13] {
    let v = get_pais_from_str(s).unwrap();
    let mut a = [Pai::Unknown; 13];
    a.copy_from_slice(&v);
    a
}

#[test]
fn tehai_keeps_tiles_sorted() {
    let mut t = Tehai::from_pais(vec![Pai::Pin3, Pai::Man1, Pai::AkaMan5, Pai::Man5]);
    assert_eq!(t.view(), &[Pai::Man1, Pai::Man5, Pai::AkaMan5, Pai::Pin3]);
    t.tsumo(Pai::Man2);
    t.tedashi(Pai::Man5);
    assert_eq!(t.view(), &[Pai::Man1, Pai::Man2, Pai::AkaMan5, Pai::Pin3]);
    t.tsumo(Pai::Sou1);
    t.tsumogiri();
    assert_eq!(t.view().len(), 4);
    t.remove_multiple(&[Pai::Man1, Pai::Pin3]);
    assert_eq!(t.view(), &[Pai::Man2, Pai::AkaMan5]);
    assert!(t.contains(Pai::AkaMan5));
    assert!(!t.contains(Pai::Man5));
    let mut h = Tehai::new();
    h.haipai(&[Pai::Sou2, Pai::Sou1]);
    assert_eq!(h.view(), &[Pai::Sou1, Pai::Sou2]);
}

#[test]
fn state_follows_the_player() {
    let mut s = State::new(0);
    assert_eq!(s.player_id(), 0);
    s.update(&start(hand13("123m456p789s1122z"))).unwrap();
    assert_eq!(s.calc_shanten(), 0);
    s.update(&Event::Tsumo { actor: 0, pai: Pai::West }).unwrap();
    assert!(s.has_tile(Pai::West));
    s.update(&Event::Dahai { actor: 0, pai: Pai::West, tsumogiri: true }).unwrap();
    assert!(!s.has_tile(Pai::West));
    // Another player's events leave the hand alone.
    s.update(&Event::Tsumo { actor: 1, pai: Pai::Chun }).unwrap();
    s.update(&Event::Dahai { actor: 1, pai: Pai::East, tsumogiri: false }).unwrap();
    s.update(&Event::Pon { actor: 0, target: 1, pai: Pai::East, consumed: [Pai::East, Pai::East] }).unwrap();
    assert_eq!(s.fuuros.len(), 1);
    assert!(matches!(s.fuuros[0], Fuuro::Pon { target: 1, pai: Pai::East, .. }));
    s.update(&Event::Dahai { actor: 0, pai: Pai::South, tsumogiri: false }).unwrap();
    s.update(&Event::Tsumo { actor: 0, pai: Pai::East }).unwrap();
    s.update(&Event::Kakan { actor: 0, pai: Pai::East, consumed: [Pai::East, Pai::East, Pai::East] }).unwrap();
    assert!(matches!(s.fuuros[0], Fuuro::Kakan { .. }));
}

#[test]
fn added_kan_without_pon_fails() {
    let mut s = State::new(0);
    s.update(&start(hand13("123m456p789s1122z"))).unwrap();
    s.update(&Event::Tsumo { actor: 0, pai: Pai::Haku }).unwrap();
    let r = s.update(&Event::Kakan { actor: 0, pai: Pai::Haku, consumed: [Pai::Haku, Pai::Haku, Pai::Haku] });
    assert!(matches!(r, Err(StateError::PreviousPonNotFound)));
}

#[test]
fn other_players_events_leave_the_hand() {
    let mut s3 = State::new(3);
    s3.update(&Event::StartKyoku {
        bakaze: Pai::East,
        dora_marker: Pai::Man1,
        kyoku: 1,
        honba: 0,
        kyotaku: 0,
        oya: 0,
        scores: [25000; 4],
        tehais: [[Pai::Unknown; 13], [Pai::Unknown; 13], [Pai::Unknown; 13], hand13("123m456p789s1122z")],
    })
    .unwrap();
    let before: Vec<Pai> = s3.tehai.view().to_vec();
    for ev in [
        Event::Tsumo { actor: 0, pai: Pai::Chun },
        Event::Dahai { actor: 0, pai: Pai::Chun, tsumogiri: true },
        Event::Pon { actor: 1, target: 0, pai: Pai::Chun, consumed: [Pai::Chun, Pai::Chun] },
        Event::Ankan { actor: 2, consumed: [Pai::Sou1; 4] },
        Event::Reach { actor: 1 },
    ] {
        assert!(s3.update(&ev).is_ok());
    }
    assert_eq!(s3.tehai.view(), &before[..]);
    assert!(s3.fuuros.is_empty());
}

#[test]
fn drawing_then_discarding_the_same_tile_restores_the_hand() {
    let mut t = Tehai::from_pais(get_pais_from_str("123m456p789s1122z").unwrap());
    let before: Vec<Pai> = t.view().to_vec();
    t.tsumo(Pai::Haku);
    t.tedashi(Pai::Haku);
    assert_eq!(t.view(), &before[..]);
}
