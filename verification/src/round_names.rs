use vstd::prelude::*;

use crate::num::{decimal_chars, u8_to_decimal};

verus! {

/// The English name of a round wind: East, South, West, North.
pub open spec fn bakaze_name(w: int) -> Seq<char> {
    if w == 0 {
        seq!['E', 'a', 's', 't']
    } else if w == 1 {
        seq!['S', 'o', 'u', 't', 'h']
    } else if w == 2 {
        seq!['W', 'e', 's', 't']
    } else {
        seq!['N', 'o', 'r', 't', 'h']
    }
}

/// The kanji of a round wind: 東, 南, 西, 北.
pub open spec fn bakaze_kanji(w: int) -> char {
    if w == 0 {
        '東'
    } else if w == 1 {
        '南'
    } else if w == 2 {
        '西'
    } else {
        '北'
    }
}

/// The kanji of a kyoku's number within its wind: 一 to 四.
pub open spec fn number_kanji(n: int) -> char {
    if n == 0 {
        '一'
    } else if n == 1 {
        '二'
    } else if n == 2 {
        '三'
    } else {
        '四'
    }
}

/// The name of a kyoku (0-based) with its honba, as `東一局` or
/// `南三局 2 本場`.
pub open spec fn kyoku_title(kyoku: u8, honba: u8) -> Seq<char> {
    let base = seq![bakaze_kanji((kyoku / 4) as int), number_kanji((kyoku % 4) as int), '局'];
    if honba == 0 {
        base
    } else {
        base + seq![' '] + decimal_chars(honba as nat) + seq![' ', '本', '場']
    }
}

/// The English name of the round wind of a kyoku (0-based).
pub fn kyoku_to_bakaze(kyoku: u8) -> (s: &'static str)
    requires
        kyoku < 16,
    ensures
        s@ == bakaze_name((kyoku / 4) as int),
{
    proof {
        reveal_strlit("East");
        reveal_strlit("South");
        reveal_strlit("West");
        reveal_strlit("North");
    }
    let w = kyoku / 4;
    if w == 0 {
        "East"
    } else if w == 1 {
        "South"
    } else if w == 2 {
        "West"
    } else {
        "North"
    }
}

/// The number of a kyoku (0-based) within its wind, counted from 1.
pub fn kyoku_to_kyoku_in_bakaze(kyoku: u8) -> (r: u8)
    ensures
        r == kyoku % 4 + 1,
{
    kyoku % 4 + 1
}

/// The text of one kanji.
fn kanji_str(w: u8, wind: bool) -> (s: &'static str)
    requires
        w < 4,
    ensures
        s@ == seq![
            if wind {
                bakaze_kanji(w as int)
            } else {
                number_kanji(w as int)
            },
        ],
{
    proof {
        reveal_strlit("東");
        reveal_strlit("南");
        reveal_strlit("西");
        reveal_strlit("北");
        reveal_strlit("一");
        reveal_strlit("二");
        reveal_strlit("三");
        reveal_strlit("四");
    }
    if wind {
        if w == 0 {
            "東"
        } else if w == 1 {
            "南"
        } else if w == 2 {
            "西"
        } else {
            "北"
        }
    } else {
        if w == 0 {
            "一"
        } else if w == 1 {
            "二"
        } else if w == 2 {
            "三"
        } else {
            "四"
        }
    }
}

/// The name of a kyoku (0-based) with its honba.
pub fn kyoku_to_string(kyoku: u8, honba: u8) -> (s: String)
    requires
        kyoku < 16,
    ensures
        s@ == kyoku_title(kyoku, honba),
{
    let mut s = String::from_str(kanji_str(kyoku / 4, true));
    s.append(kanji_str(kyoku % 4, false));
    proof {
        reveal_strlit("局");
        reveal_strlit(" ");
        reveal_strlit(" 本場");
    }
    s.append("局");
    if honba != 0 {
        s.append(" ");
        let n = u8_to_decimal(honba);
        s.append(n.as_str());
        s.append(" 本場");
    }
    proof {
        assert(s@ =~= kyoku_title(kyoku, honba));
    }
    s
}

} // verus!
