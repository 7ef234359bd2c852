use mjai_reviewer::mjai::Event;
use mjai_reviewer::pai::Pai;
use mjai_reviewer::review::{
    compare_action, compare_action_strict, count_bits, equal_ignore_aka_consumed, mask_from_bits, skip_review,
    next_action, next_action_for_compare, next_action_strict, tile_set_eq, to_event, to_label,
    CallKind, CompareError, LabelError,
};
use mjai_reviewer::state::State;

#[test]
fn tile_sets_ignore_order_and_optionally_red_fives() {
    assert!(tile_set_eq(&[Pai::Man5, Pai::AkaMan5], &[Pai::AkaMan5, Pai::Man5], false));
    assert!(!tile_set_eq(&[Pai::Man5, Pai::Man5], &[Pai::AkaMan5, Pai::Man5], false));
    assert!(tile_set_eq(&[Pai::Man5, Pai::Man5], &[Pai::AkaMan5, Pai::Man5], true));
    assert!(!tile_set_eq(&[Pai::Man5], &[Pai::Man5, Pai::Man5], true));
    assert!(tile_set_eq(&[], &[], false));
}

#[test]
fn masks_read_bits_from_the_lowest() {
    let m = mask_from_bits(0b1010_0001);
    assert!(m[0]);
    assert!(!m[1]);
    assert!(m[5]);
    assert!(m[7]);
    assert!(!m[45]);
    let m = mask_from_bits(1u64 << 45);
    assert!(m[45]);
    assert_eq!(m.iter().filter(|b| **b).count(), 1);
}

#[test]
fn equal_actions_set_red_fives_aside() {
    let a = Event::Chi { actor: 0, target: 3, pai: Pai::Man4, consumed: [Pai::AkaMan5, Pai::Man6] };
    let b = Event::Chi { actor: 0, target: 3, pai: Pai::Man4, consumed: [Pai::Man6, Pai::Man5] };
    assert!(equal_ignore_aka_consumed(&a, &b));
    let c = Event::Dahai { actor: 0, pai: Pai::Man4, tsumogiri: true };
    let d = Event::Dahai { actor: 0, pai: Pai::Man4, tsumogiri: false };
    assert!(equal_ignore_aka_consumed(&c, &d));
    assert!(!equal_ignore_aka_consumed(&a, &c));
    assert!(equal_ignore_aka_consumed(&Event::NoAction, &Event::NoAction));
}

#[test]
fn labels_number_actions() {
    let dahai = Event::Dahai { actor: 1, pai: Pai::AkaPin5, tsumogiri: false };
    assert_eq!(to_label(&dahai, false).unwrap(), 35);
    assert_eq!(to_label(&Event::Reach { actor: 1 }, false).unwrap(), 37);
    let low = Event::Chi { actor: 1, target: 0, pai: Pai::Man3, consumed: [Pai::Man4, Pai::AkaMan5] };
    let mid = Event::Chi { actor: 1, target: 0, pai: Pai::Man4, consumed: [Pai::Man3, Pai::Man5] };
    let high = Event::Chi { actor: 1, target: 0, pai: Pai::AkaMan5, consumed: [Pai::Man3, Pai::Man4] };
    assert_eq!(to_label(&low, false).unwrap(), 38);
    assert_eq!(to_label(&mid, false).unwrap(), 39);
    assert_eq!(to_label(&high, false).unwrap(), 40);
    let kan = Event::Ankan { actor: 1, consumed: [Pai::AkaSou5, Pai::Sou5, Pai::Sou5, Pai::Sou5] };
    assert_eq!(to_label(&kan, false).unwrap(), 42);
    assert_eq!(to_label(&kan, true).unwrap(), 22);
    assert_eq!(to_label(&Event::NoAction, false).unwrap(), 45);
    assert!(matches!(to_label(&dahai, true), Err(LabelError::NotKanAction(Event::Dahai { .. }))));
}

#[test]
fn events_from_labels_come_back_to_their_labels() {
    let mut state = State::new(2);
    state
        .update(&Event::StartKyoku {
            bakaze: Pai::East,
            dora_marker: Pai::Man1,
            kyoku: 1,
            honba: 0,
            kyotaku: 0,
            oya: 0,
            scores: [25000; 4],
            tehais: [[Pai::Man1; 13], [Pai::Man1; 13], {
                let mut h = [Pai::Man1; 13];
                h[0] = Pai::AkaMan5;
                h
            }, [Pai::Man1; 13]],
        })
        .unwrap();
    for label in 0usize..46 {
        let last = Some(Pai::Man4);
        let ev = to_event(&state, label, 1, last, false).unwrap();
        assert_eq!(to_label(&ev, false).unwrap(), label, "label {label}: {ev:?}");
    }
    // Chi and pon use plain tiles, though the hand holds the red five.
    match to_event(&state, 39, 1, Some(Pai::Man4), false).unwrap() {
        Event::Chi { consumed, .. } => assert_eq!(consumed, [Pai::Man3, Pai::Man5]),
        other => panic!("unexpected {other:?}"),
    }
    match to_event(&state, 38, 1, Some(Pai::Man3), false).unwrap() {
        Event::Chi { consumed, .. } => assert_eq!(consumed, [Pai::Man4, Pai::Man5]),
        other => panic!("unexpected {other:?}"),
    }
    match to_event(&state, 41, 1, Some(Pai::AkaMan5), false).unwrap() {
        Event::Pon { pai, consumed, .. } => {
            assert_eq!(pai, Pai::AkaMan5);
            assert_eq!(consumed, [Pai::Man5, Pai::Man5]);
        }
        other => panic!("unexpected {other:?}"),
    }
    match to_event(&state, 42, 1, Some(Pai::AkaMan5), false).unwrap() {
        Event::Ankan { consumed, .. } => {
            assert_eq!(consumed, [Pai::AkaMan5, Pai::Man5, Pai::Man5, Pai::Man5]);
        }
        other => panic!("unexpected {other:?}"),
    }
    match to_event(&state, 0, 1, Some(Pai::Man1), false).unwrap() {
        Event::Dahai { actor, pai, tsumogiri } => {
            assert_eq!((actor, pai, tsumogiri), (2, Pai::Man1, true));
        }
        other => panic!("unexpected {other:?}"),
    }
    for label in 0usize..34 {
        let ev = to_event(&state, label, 1, None, true).unwrap();
        assert_eq!(to_label(&ev, true).unwrap(), label);
    }
    assert!(matches!(to_event(&state, 34, 1, None, true), Err(LabelError::InvalidKanLabel(34))));
    assert!(matches!(
        to_event(&state, 41, 1, None, false),
        Err(LabelError::MissingLastTile(CallKind::Pon))
    ));
    assert!(matches!(to_event(&state, 46, 1, None, false), Err(LabelError::UnexpectedLabel(46))));
}

#[test]
fn next_actions_skip_notices() {
    let evs = vec![
        Event::Dora { dora_marker: Pai::Man1 },
        Event::ReachAccepted { actor: 1 },
        Event::Pon { actor: 0, target: 1, pai: Pai::Pin1, consumed: [Pai::Pin1, Pai::Pin1] },
        Event::Dahai { actor: 0, pai: Pai::Pin9, tsumogiri: false },
        Event::Tsumo { actor: 1, pai: Pai::Pin2 },
    ];
    let rough = next_action_for_compare(&evs);
    assert_eq!(rough.len(), 2);
    assert!(matches!(rough[0], Event::Pon { .. }));
    let strict = next_action_strict(rough, 0);
    assert_eq!(strict.len(), 2);
    let strict = next_action_strict(rough, 2);
    assert!(matches!(strict[..], [Event::NoAction]));
    assert!(matches!(next_action(&evs, 0), Some(Event::Pon { .. })));
    assert!(next_action(&evs, 3).is_none());

    let horas = vec![
        Event::Hora { actor: 1, target: 0, deltas: None, ura_markers: None },
        Event::Hora { actor: 2, target: 0, deltas: None, ura_markers: None },
        Event::EndKyoku,
    ];
    assert!(matches!(next_action_strict(&horas, 2)[..], [Event::Hora { actor: 2, .. }]));
    assert!(matches!(next_action_strict(&horas, 3)[..], [Event::NoAction]));
    assert!(matches!(next_action(&horas, 2), Some(Event::Hora { actor: 2, .. })));
    assert!(next_action(&horas, 3).is_none());
    let tsumo = vec![Event::Tsumo { actor: 3, pai: Pai::Man1 }];
    assert!(matches!(next_action(&tsumo, 0), Some(Event::NoAction)));
}

#[test]
fn strict_comparison_sets_tsumogiri_aside() {
    let a = [Event::Dahai { actor: 0, pai: Pai::Sou1, tsumogiri: true }];
    let e = [Event::Dahai { actor: 0, pai: Pai::Sou1, tsumogiri: false }];
    assert!(compare_action_strict(&a, &e));
    let f = [Event::Dahai { actor: 0, pai: Pai::Sou2, tsumogiri: false }];
    assert!(!compare_action_strict(&a, &f));
    assert!(compare_action_strict(&a, &[]));
}

#[test]
fn comparison_of_actions() {
    let dahai = |p: Pai, g: bool| Event::Dahai { actor: 0, pai: p, tsumogiri: g };
    assert!(compare_action(&[dahai(Pai::Man1, true)], &[dahai(Pai::Man1, false)], 0).unwrap());
    assert!(!compare_action(&[dahai(Pai::Man2, true)], &[dahai(Pai::Man1, false)], 0).unwrap());
    let reach = Event::Reach { actor: 0 };
    assert!(compare_action(
        &[reach.clone(), dahai(Pai::Man1, true)],
        &[reach.clone(), dahai(Pai::Man1, false)],
        0
    )
    .unwrap());
    match compare_action(&[reach.clone(), Event::EndKyoku], &[reach.clone(), dahai(Pai::Man2, false)], 0) {
        Err(CompareError::NotDahaiAfter { call: CallKind::Reach, got: Some(Event::EndKyoku) }) => {}
        other => panic!("unexpected {other:?}"),
    }
    let chi = Event::Chi { actor: 0, target: 3, pai: Pai::Man3, consumed: [Pai::Man4, Pai::Man5] };
    let ron = Event::Hora { actor: 2, target: 3, deltas: None, ura_markers: None };
    assert!(compare_action(&[ron.clone()], &[chi.clone(), dahai(Pai::Man1, false)], 0).unwrap());
    assert!(!compare_action(&[Event::Tsumo { actor: 0, pai: Pai::Man1 }], &[chi], 0).unwrap());
    assert!(compare_action(&[Event::Tsumo { actor: 1, pai: Pai::Man1 }], &[Event::NoAction], 0).unwrap());
    assert!(compare_action(&[ron.clone()], &[Event::Hora { actor: 2, target: 3, deltas: None, ura_markers: None }], 2).unwrap());
    match compare_action(&[Event::EndKyoku], &[Event::EndKyoku, Event::EndGame], 0) {
        Ok(true) => {}
        other => panic!("unexpected {other:?}"),
    }
    match compare_action(&[Event::EndGame], &[Event::EndKyoku], 0) {
        Err(CompareError::UnexpectedEvent(Event::EndGame)) => {}
        other => panic!("unexpected {other:?}"),
    }
}

#[test]
fn actions_agree_with_themselves() {
    let acts = [
        vec![Event::Dahai { actor: 0, pai: Pai::Man1, tsumogiri: true }],
        vec![Event::Reach { actor: 0 }, Event::Dahai { actor: 0, pai: Pai::Man2, tsumogiri: false }],
        vec![Event::NoAction],
        vec![Event::EndGame],
    ];
    for a in &acts {
        assert!(compare_action(a, a, 0).unwrap());
        assert!(compare_action_strict(a, a));
    }
}

#[test]
fn tile_set_comparison_is_an_equivalence() {
    let a = [Pai::Man5, Pai::AkaMan5, Pai::Pin1];
    let b = [Pai::Pin1, Pai::Man5, Pai::Man5];
    let c = [Pai::AkaMan5, Pai::Pin1, Pai::AkaMan5];
    assert!(tile_set_eq(&a, &a, false));
    assert_eq!(tile_set_eq(&a, &b, true), tile_set_eq(&b, &a, true));
    assert!(tile_set_eq(&a, &b, true) && tile_set_eq(&b, &c, true) && tile_set_eq(&a, &c, true));
    assert!(!tile_set_eq(&a, &b, false));
}

#[test]
fn counting_mask_bits() {
    assert_eq!(count_bits(0), 0);
    assert_eq!(count_bits(1 << 45), 1);
    assert_eq!(count_bits(0b1011), 3);
    assert_eq!(count_bits(u64::MAX), 64);
}

#[test]
fn skipping_reviews() {
    let pass = Event::NoAction;
    let dahai = Event::Dahai { actor: 1, pai: Pai::Man1, tsumogiri: true };
    let my_pon = Event::Pon { actor: 1, target: 0, pai: Pai::Man1, consumed: [Pai::Man1, Pai::Man1] };
    let their_chi = Event::Chi { actor: 2, target: 1, pai: Pai::Man1, consumed: [Pai::Man2, Pai::Man3] };
    // One action, a pass: skipped unless the player called.
    assert!(skip_review(1, &pass, false, &dahai, 1));
    assert!(skip_review(1, &pass, false, &their_chi, 1));
    assert!(!skip_review(1, &pass, false, &my_pon, 1));
    // In riichi with one action: skipped.
    assert!(skip_review(1, &dahai, true, &dahai, 1));
    // A real choice, or not in riichi and no pass: reviewed.
    assert!(!skip_review(2, &pass, true, &dahai, 1));
    assert!(!skip_review(1, &dahai, false, &dahai, 1));
}

#[test]
fn comparing_empty_actions() {
    assert_eq!(compare_action(&[], &[], 0).unwrap(), true);
    let d = Event::Dahai { actor: 0, pai: Pai::Man1, tsumogiri: false };
    assert_eq!(compare_action(&[d.clone()], &[], 0).unwrap(), true);
    assert_eq!(compare_action(&[], &[d], 0).unwrap(), true);
}
