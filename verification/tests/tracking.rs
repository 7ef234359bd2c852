use mjai_reviewer::mjai::Event;
use mjai_reviewer::pai::Pai;
use mjai_reviewer::tracking::{AkochanError, AkochanStep, AkochanTracker, MortalStep, MortalTracker};

fn start_south_two() -> Event {
    Event::StartKyoku {
        bakaze: Pai::South,
        dora_marker: Pai::Man1,
        kyoku: 2,
        honba: 3,
        kyotaku: 0,
        oya: 1,
        scores: [10, 20, 30, 40],
        tehais: [[Pai::Man1; 13]; 4],
    }
}

#[test]
fn mortal_tracker_follows_a_kyoku() {
    let mut t = MortalTracker::new(1);
    assert!(matches!(t.observe(&Event::StartGame { names: Default::default(), kyoku_first: 0, aka_flag: true }), Ok(MortalStep::Pass)));
    assert!(matches!(t.observe(&start_south_two()), Ok(MortalStep::Pass)));
    assert_eq!((t.kyoku, t.honba), (5, 3));
    assert_eq!(t.relative_scores, [20, 30, 40, 10]);
    let step = t.observe(&Event::Tsumo { actor: 1, pai: Pai::Pin3 }).unwrap();
    assert!(matches!(step, MortalStep::Review { at_self_chi_pon: false, at_self_riichi: false }));
    assert_eq!(t.junme, 1);
    assert_eq!(t.last_tsumo_or_discard, Some(Pai::Pin3));
    assert_eq!(t.last_actor, 1);
    t.observe(&Event::Dahai { actor: 1, pai: Pai::Pin3, tsumogiri: true }).unwrap();
    t.observe(&Event::Tsumo { actor: 2, pai: Pai::Sou3 }).unwrap();
    assert_eq!(t.junme, 1);
    assert_eq!(t.last_tsumo_or_discard, Some(Pai::Pin3));
    t.observe(&Event::Dahai { actor: 2, pai: Pai::Man1, tsumogiri: false }).unwrap();
    let step = t.observe(&Event::Pon { actor: 1, target: 2, pai: Pai::Man1, consumed: [Pai::Man1, Pai::Man1] }).unwrap();
    assert!(matches!(step, MortalStep::Review { at_self_chi_pon: true, .. }));
    assert_eq!(t.junme, 2);
    let step = t.observe(&Event::Ryukyoku { deltas: Some([0; 4]) }).unwrap();
    assert!(matches!(step, MortalStep::Review { .. }));
    match t.observe(&Event::EndKyoku).unwrap() {
        MortalStep::KyokuEnd { kyoku, honba, end_status, relative_scores } => {
            assert_eq!((kyoku, honba), (5, 3));
            assert_eq!(end_status.len(), 1);
            assert_eq!(relative_scores, [20, 30, 40, 10]);
        }
        other => panic!("unexpected {other:?}"),
    }
    assert_eq!(t.junme, 0);
    assert_eq!(t.kyoku, 0);
    assert!(t.end_status.is_empty());
}

#[test]
fn akochan_tracker_decides_what_to_review() {
    let mut t = AkochanTracker::new(0);
    assert!(matches!(t.observe(&start_south_two(), 10), Ok(AkochanStep::Pass)));
    assert_eq!(t.tiles_left, 70);
    assert_eq!(t.kyoku, 5);
    match t.observe(&Event::Tsumo { actor: 0, pai: Pai::Pin3 }, 10) {
        Ok(AkochanStep::Review { last_actor: 0, tile: Pai::Pin3, at_opponent_kakan: false }) => {}
        other => panic!("unexpected {other:?}"),
    }
    assert_eq!(t.tiles_left, 69);
    assert_eq!(t.junme, 1);
    assert!(matches!(t.observe(&Event::Dahai { actor: 0, pai: Pai::Pin3, tsumogiri: true }, 10), Ok(AkochanStep::Pass)));
    assert!(matches!(t.observe(&Event::Tsumo { actor: 1, pai: Pai::Sou3 }, 10), Ok(AkochanStep::Pass)));
    assert_eq!(t.tiles_left, 68);
    match t.observe(&Event::Dahai { actor: 1, pai: Pai::Sou3, tsumogiri: true }, 10) {
        Ok(AkochanStep::Review { last_actor: 1, tile: Pai::Sou3, at_opponent_kakan: false }) => {}
        other => panic!("unexpected {other:?}"),
    }
    assert!(matches!(t.observe(&Event::ReachAccepted { actor: 0 }, 10), Ok(AkochanStep::Pass)));
    assert!(t.is_riichied);
    assert!(matches!(
        t.observe(&Event::Dahai { actor: 2, pai: Pai::Sou4, tsumogiri: true }, 3),
        Err(AkochanError::TooFewEvents)
    ));
    assert!(matches!(t.observe(&Event::Hora { actor: 0, target: 2, deltas: None, ura_markers: None }, 3), Ok(AkochanStep::Pass)));
    match t.observe(&Event::EndKyoku, 2) {
        Ok(AkochanStep::KyokuEnd { kyoku: 5, honba: 3, end_status }) => assert_eq!(end_status.len(), 1),
        other => panic!("unexpected {other:?}"),
    }
}

#[test]
fn trackers_fail_where_the_state_cannot_follow() {
    let mut t = AkochanTracker::new(0);
    t.observe(&start_south_two(), 10).unwrap();
    let r = t.observe(&Event::Kakan { actor: 0, pai: Pai::Man1, consumed: [Pai::Man1; 3] }, 10);
    assert!(matches!(r, Err(AkochanError::State(_))));
    let mut m = MortalTracker::new(0);
    m.observe(&start_south_two()).unwrap();
    assert!(m.observe(&Event::Kakan { actor: 0, pai: Pai::Man1, consumed: [Pai::Man1; 3] }).is_err());
}
