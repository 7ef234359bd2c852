use mjai_reviewer::pai::{get_pais_from_str, Pai};

#[test]
fn test_pai() {
    println!("{:?} {:?} {:?}", Pai::AkaMan5, Pai::AkaPin5, Pai::AkaSou5);
}

#[test]
fn test_get_pais_from_str() {
    let case0 = "123456789p123s55m";
    let res = get_pais_from_str(case0).unwrap();
    println!("{:?}", res);
    let case0 = "1234567z19m19s199p";
    let res = get_pais_from_str(case0).unwrap();
    println!("{:?}", res);
    let case0 = "1234567z10m10s110p";
    let res = get_pais_from_str(case0).unwrap();
    println!("{:?}", res);
}

fn t(id: u8) -> Pai {
    Pai::from_tile_id(id)
}

#[test]
fn syntax() {
    // 3s is tile 20, 5sr is 36, 5mr is 34 in the mjai order.
    assert_eq!(t(20).to_tile_id() as usize, 20usize);
    assert_eq!(t(36).to_tile_id(), 36u8);
    assert_eq!(t(4).akaize().to_tile_id(), 34u8);

    assert_eq!([Pai::Man8.to_tile_id()], [7u8]);
    assert_eq!([Pai::Haku.to_tile_id() as usize], [31usize]);
    assert_eq!([t(30)], [Pai::North]);

    assert_eq!(
        [Pai::Pin2.to_tile_id(), Pai::AkaPin5.to_tile_id(), Pai::South.to_tile_id()],
        [10u8, 35, 28]
    );
    assert_eq!(
        [
            Pai::East.to_tile_id() as usize,
            Pai::Man6.to_tile_id() as usize,
            Pai::Unknown.to_tile_id() as usize
        ],
        [27usize, 5, 37]
    );
    assert_eq!([t(0), t(10), t(26)], [Pai::Man1, Pai::Pin2, Pai::Sou9]);

    assert!(matches!(t(27).to_tile_id(), 0 | 27 | 37 | 34));
    assert!(!matches!(t(2).to_tile_id(), 18 | 15 | 31));
}

#[test]
fn completeness() {
    let names = [
        "1m", "2m", "3m", "4m", "5m", "6m", "7m", "8m", "9m", "1p", "2p", "3p", "4p", "5p", "6p",
        "7p", "8p", "9p", "1s", "2s", "3s", "4s", "5s", "6s", "7s", "8s", "9s", "E", "S", "W", "N",
        "P", "F", "C", "5mr", "5pr", "5sr", "?",
    ];
    for (id, name) in names.iter().enumerate() {
        assert_eq!(t(id as u8).to_mjai_string(), *name);
    }
    assert_eq!(t(0).to_mjai_string(), "1m");
    assert_eq!(t(27).to_mjai_string(), "E");
    assert_eq!(t(34).to_mjai_string(), "5mr");
    assert_eq!(t(37).to_mjai_string(), "?");
}

#[test]
fn tenhou_numbers_round_trip() {
    for n in 0u8..=60 {
        if let Some(p) = Pai::from_u8(n) {
            assert_eq!(p.as_u8(), n);
            assert_eq!(p.as_usize(), n as usize);
        }
    }
    assert_eq!(Pai::from_u8(11), Some(Pai::Man1));
    assert_eq!(Pai::from_u8(51), Some(Pai::AkaMan5));
    assert_eq!(Pai::from_u8(10), None);
    assert_eq!(Pai::from_u8(48), None);
}

#[test]
fn mjai_text_round_trip() {
    for id in 0u8..=37 {
        let p = t(id);
        let s = p.to_mjai_string();
        assert_eq!(s.parse::<Pai>().unwrap(), p);
        assert_eq!(Pai::from_mjai_str(&s).unwrap(), p);
    }
    assert!("0m".parse::<Pai>().is_err());
    assert!("".parse::<Pai>().is_err());
}

#[test]
fn tile_order_and_neighbours() {
    assert_eq!(Pai::Man9.next(), Pai::Man1);
    assert_eq!(Pai::North.next(), Pai::East);
    assert_eq!(Pai::Chun.next(), Pai::Haku);
    assert_eq!(Pai::AkaPin5.next(), Pai::Pin6);
    assert_eq!(Pai::Man1.prev(), Pai::Man9);
    assert_eq!(Pai::Pin6.prev().next(), Pai::Pin6);
    assert_eq!(Pai::AkaSou5.deaka(), Pai::Sou5);
    assert_eq!(Pai::Sou5.akaize(), Pai::AkaSou5);
    assert_eq!(Pai::Sou4.akaize(), Pai::Sou4);
    assert_eq!(Pai::AkaMan5.as_ord(), Pai::Man5.as_ord() + 1);
    assert_eq!(Pai::AkaMan5.as_unify_u8(), Pai::Man5.as_u8());
    assert_eq!(Pai::default(), Pai::Unknown);
}

#[test]
fn pai_lists_read_reds_and_honors() {
    let v = get_pais_from_str("0m5p7z").unwrap();
    assert_eq!(v, vec![Pai::AkaMan5, Pai::Pin5, Pai::Chun]);
    let v = get_pais_from_str("19m").unwrap();
    assert_eq!(v, vec![Pai::Man1, Pai::Man9]);
}

#[test]
fn test_a() {
    let x = Pai::from_u8(11u8);
    println!("{:?}", x);
    assert_eq!(x, Some(Pai::Man1));
    let x = Pai::from_u8(10u8);
    println!("{:?}", x);
    assert_eq!(x, None);
}
