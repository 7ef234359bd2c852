use mjai_reviewer::pai::get_pais_from_str;
use mjai_reviewer::shanten::ShantenHelper;
use mjai_reviewer::tehai::Tehai;

fn helper(input: &str) -> ShantenHelper {
    ShantenHelper::new(&Tehai::from_pais(get_pais_from_str(input).unwrap()))
}

#[test]
fn test_normal_shanten() {
    let cases: Vec<(&'static str, i32)> = Vec::from([
        ("1112234567899s4s", 0),
        ("11112345678999s", -1),
        ("11122345678999s", -1),
        ("11123345678999s", -1),
        ("11123445678999s", -1),
        ("11123455678999s", -1),
        ("11123456678999s", -1),
        ("11123456778999s", -1),
        ("11123456788999s", -1),
        ("11123456789999s", -1),
        ("40m12356p4699s222z", 1),
        ("0m12356p4699s4m", 1),
        ("123456789p123s55m", -1),
        ("12345678p123s55m1z", 0),
        ("12345678p12s55m12z", 1),
        ("0m125p1469s24z6p", 3),
        ("0m1256p469s24z9s", 2),
        ("0m1256p4699s4z3p", 1),
        ("245m12356p99s222z4p", 0),
        ("45m123456p99s222z2m", 0),
        ("45m123456p99s222z3m", -1),
        ("45m235678p399s22z6s", 2),
        ("45m23568p3699s22z4m", 3),
        ("445m2358p23469s2z9m", 4),
        ("49m2358p23469s24z1m", 5),
        ("149m258p2369s124z7s", 6),
        ("4444m6666p1111s55z", 1),
    ]);
    for (input, s) in cases {
        println!("input: '{}'", input);
        let mut helper = helper(input);
        let normal = helper.get_normal_shanten();
        println!("shanten: {} for '{}'(normal)", s, input);
        assert_eq!(s, normal, "for '{}'", input);
    }
}

#[test]
fn test_chiitoi_shanten() {
    let cases = Vec::from([
        ("458m666p116688s55z", 1),
        ("44m6666p116688s55z", 1),
        ("4444m6666p1111s55z", 5),
    ]);
    for (input, s) in cases {
        println!("input: '{}'", input);
        let helper = helper(input);
        let normal = helper.get_chiitoi_shanten();
        println!("shanten: {} for '{}'(normal)", s, input);
        assert_eq!(s, normal, "for '{}'", input);
    }
}

#[test]
fn test_kokushi_shanten() {
    let cases = Vec::from([("159m19p19s1234677z", 0), ("159m19p19s1236677z", 1)]);
    for (input, s) in cases {
        println!("input: '{}'", input);
        let helper = helper(input);
        let normal = helper.get_kokushi_shanten();
        println!("shanten: {} for '{}'(normal)", s, input);
        assert_eq!(s, normal, "for '{}'", input);
    }
}

#[test]
fn overall_shanten_is_the_least_of_the_three() {
    let mut h = helper("458m666p116688s55z");
    let all = h.get_shanten();
    let n = h.get_normal_shanten();
    let c = h.get_chiitoi_shanten();
    let k = h.get_kokushi_shanten();
    assert_eq!(all, n.min(c).min(k));
    assert_eq!(all, 1);

    let mut h = helper("159m19p19s1234677z");
    assert_eq!(h.get_shanten(), 0);
}

#[test]
fn short_hands_count_their_melds() {
    // A hand of ten tiles after one meld: three sets and a lone tile.
    let mut h = helper("123m456p789s5z");
    assert_eq!(h.get_normal_shanten(), 0);
    assert_eq!(h.get_chiitoi_shanten(), 6);
    assert_eq!(h.get_kokushi_shanten(), 8);
}
