use vstd::prelude::*;

verus! {

/// A mahjong tile, numbered as in the tenhou.net/6 log format: `11..=19` are
/// the characters (man), `21..=29` the circles (pin), `31..=39` the bamboos
/// (sou), `41..=47` the honors (E, S, W, N, P, F, C), `51..=53` the red fives,
/// and `0` an unknown tile.
#[derive(Debug, Clone, Copy, PartialEq, Eq, Structural, Hash)]
pub enum Pai {
    Unknown,
    Man1,
    Man2,
    Man3,
    Man4,
    Man5,
    Man6,
    Man7,
    Man8,
    Man9,
    Pin1,
    Pin2,
    Pin3,
    Pin4,
    Pin5,
    Pin6,
    Pin7,
    Pin8,
    Pin9,
    Sou1,
    Sou2,
    Sou3,
    Sou4,
    Sou5,
    Sou6,
    Sou7,
    Sou8,
    Sou9,
    East,
    South,
    West,
    North,
    Haku,
    Hatsu,
    Chun,
    AkaMan5,
    AkaPin5,
    AkaSou5,
}

/// The tile type that tenhou.net/6 logs are written in; it is the same set of
/// tiles, with the same numbering, as [`Pai`].
pub type TenhouTile = Pai;

/// The error of parsing a tile, or a list of tiles, from text.
#[derive(Debug)]
pub enum ParseError {
    InvalidPaiString(String),
}

impl Pai {
    /// The tenhou.net/6 number of the tile.
    pub open spec fn id(self) -> u8 {
        match self {
            Pai::Unknown => 0,
            Pai::Man1 => 11,
            Pai::Man2 => 12,
            Pai::Man3 => 13,
            Pai::Man4 => 14,
            Pai::Man5 => 15,
            Pai::Man6 => 16,
            Pai::Man7 => 17,
            Pai::Man8 => 18,
            Pai::Man9 => 19,
            Pai::Pin1 => 21,
            Pai::Pin2 => 22,
            Pai::Pin3 => 23,
            Pai::Pin4 => 24,
            Pai::Pin5 => 25,
            Pai::Pin6 => 26,
            Pai::Pin7 => 27,
            Pai::Pin8 => 28,
            Pai::Pin9 => 29,
            Pai::Sou1 => 31,
            Pai::Sou2 => 32,
            Pai::Sou3 => 33,
            Pai::Sou4 => 34,
            Pai::Sou5 => 35,
            Pai::Sou6 => 36,
            Pai::Sou7 => 37,
            Pai::Sou8 => 38,
            Pai::Sou9 => 39,
            Pai::East => 41,
            Pai::South => 42,
            Pai::West => 43,
            Pai::North => 44,
            Pai::Haku => 45,
            Pai::Hatsu => 46,
            Pai::Chun => 47,
            Pai::AkaMan5 => 51,
            Pai::AkaPin5 => 52,
            Pai::AkaSou5 => 53,
        }
    }

    /// The tile whose tenhou.net/6 number is `n`, if there is one.
    pub open spec fn from_id(n: int) -> Option<Pai> {
        if n == 0 {
            Some(Pai::Unknown)
        } else if n == 11 {
            Some(Pai::Man1)
        } else if n == 12 {
            Some(Pai::Man2)
        } else if n == 13 {
            Some(Pai::Man3)
        } else if n == 14 {
            Some(Pai::Man4)
        } else if n == 15 {
            Some(Pai::Man5)
        } else if n == 16 {
            Some(Pai::Man6)
        } else if n == 17 {
            Some(Pai::Man7)
        } else if n == 18 {
            Some(Pai::Man8)
        } else if n == 19 {
            Some(Pai::Man9)
        } else if n == 21 {
            Some(Pai::Pin1)
        } else if n == 22 {
            Some(Pai::Pin2)
        } else if n == 23 {
            Some(Pai::Pin3)
        } else if n == 24 {
            Some(Pai::Pin4)
        } else if n == 25 {
            Some(Pai::Pin5)
        } else if n == 26 {
            Some(Pai::Pin6)
        } else if n == 27 {
            Some(Pai::Pin7)
        } else if n == 28 {
            Some(Pai::Pin8)
        } else if n == 29 {
            Some(Pai::Pin9)
        } else if n == 31 {
            Some(Pai::Sou1)
        } else if n == 32 {
            Some(Pai::Sou2)
        } else if n == 33 {
            Some(Pai::Sou3)
        } else if n == 34 {
            Some(Pai::Sou4)
        } else if n == 35 {
            Some(Pai::Sou5)
        } else if n == 36 {
            Some(Pai::Sou6)
        } else if n == 37 {
            Some(Pai::Sou7)
        } else if n == 38 {
            Some(Pai::Sou8)
        } else if n == 39 {
            Some(Pai::Sou9)
        } else if n == 41 {
            Some(Pai::East)
        } else if n == 42 {
            Some(Pai::South)
        } else if n == 43 {
            Some(Pai::West)
        } else if n == 44 {
            Some(Pai::North)
        } else if n == 45 {
            Some(Pai::Haku)
        } else if n == 46 {
            Some(Pai::Hatsu)
        } else if n == 47 {
            Some(Pai::Chun)
        } else if n == 51 {
            Some(Pai::AkaMan5)
        } else if n == 52 {
            Some(Pai::AkaPin5)
        } else if n == 53 {
            Some(Pai::AkaSou5)
        } else {
            None
        }
    }

    /// The tenhou.net/6 number of the tile, with a red five counted as the
    /// plain five of its suit.
    pub open spec fn unify_id(self) -> u8 {
        match self {
            Pai::AkaMan5 => 15,
            Pai::AkaPin5 => 25,
            Pai::AkaSou5 => 35,
            _ => self.id(),
        }
    }

    /// The sort key of the tile: the number, except that a red five sits
    /// right after the plain five of its suit.
    pub open spec fn ord_key(self) -> u8 {
        match self {
            Pai::AkaMan5 => 16,
            Pai::AkaPin5 => 26,
            Pai::AkaSou5 => 36,
            _ => {
                let id = self.id();
                if (16 <= id < 20) || (26 <= id < 30) || (36 <= id < 40) {
                    (id + 1) as u8
                } else {
                    id
                }
            },
        }
    }

    /// The text of the tile in the mjai format.
    pub open spec fn mjai_chars(self) -> Seq<char> {
        match self {
            Pai::Unknown => seq!['?'],
            Pai::Man1 => seq!['1', 'm'],
            Pai::Man2 => seq!['2', 'm'],
            Pai::Man3 => seq!['3', 'm'],
            Pai::Man4 => seq!['4', 'm'],
            Pai::Man5 => seq!['5', 'm'],
            Pai::Man6 => seq!['6', 'm'],
            Pai::Man7 => seq!['7', 'm'],
            Pai::Man8 => seq!['8', 'm'],
            Pai::Man9 => seq!['9', 'm'],
            Pai::Pin1 => seq!['1', 'p'],
            Pai::Pin2 => seq!['2', 'p'],
            Pai::Pin3 => seq!['3', 'p'],
            Pai::Pin4 => seq!['4', 'p'],
            Pai::Pin5 => seq!['5', 'p'],
            Pai::Pin6 => seq!['6', 'p'],
            Pai::Pin7 => seq!['7', 'p'],
            Pai::Pin8 => seq!['8', 'p'],
            Pai::Pin9 => seq!['9', 'p'],
            Pai::Sou1 => seq!['1', 's'],
            Pai::Sou2 => seq!['2', 's'],
            Pai::Sou3 => seq!['3', 's'],
            Pai::Sou4 => seq!['4', 's'],
            Pai::Sou5 => seq!['5', 's'],
            Pai::Sou6 => seq!['6', 's'],
            Pai::Sou7 => seq!['7', 's'],
            Pai::Sou8 => seq!['8', 's'],
            Pai::Sou9 => seq!['9', 's'],
            Pai::East => seq!['E'],
            Pai::South => seq!['S'],
            Pai::West => seq!['W'],
            Pai::North => seq!['N'],
            Pai::Haku => seq!['P'],
            Pai::Hatsu => seq!['F'],
            Pai::Chun => seq!['C'],
            Pai::AkaMan5 => seq!['5', 'm', 'r'],
            Pai::AkaPin5 => seq!['5', 'p', 'r'],
            Pai::AkaSou5 => seq!['5', 's', 'r'],
        }
    }

    /// The number of the tile in the mjai tile order (`0..=33` for the plain
    /// tiles, `34..=36` for the red fives, `37` for the unknown tile).
    pub open spec fn tile_id(self) -> u8 {
        match self {
            Pai::Unknown => 37,
            Pai::Man1 => 0,
            Pai::Man2 => 1,
            Pai::Man3 => 2,
            Pai::Man4 => 3,
            Pai::Man5 => 4,
            Pai::Man6 => 5,
            Pai::Man7 => 6,
            Pai::Man8 => 7,
            Pai::Man9 => 8,
            Pai::Pin1 => 9,
            Pai::Pin2 => 10,
            Pai::Pin3 => 11,
            Pai::Pin4 => 12,
            Pai::Pin5 => 13,
            Pai::Pin6 => 14,
            Pai::Pin7 => 15,
            Pai::Pin8 => 16,
            Pai::Pin9 => 17,
            Pai::Sou1 => 18,
            Pai::Sou2 => 19,
            Pai::Sou3 => 20,
            Pai::Sou4 => 21,
            Pai::Sou5 => 22,
            Pai::Sou6 => 23,
            Pai::Sou7 => 24,
            Pai::Sou8 => 25,
            Pai::Sou9 => 26,
            Pai::East => 27,
            Pai::South => 28,
            Pai::West => 29,
            Pai::North => 30,
            Pai::Haku => 31,
            Pai::Hatsu => 32,
            Pai::Chun => 33,
            Pai::AkaMan5 => 34,
            Pai::AkaPin5 => 35,
            Pai::AkaSou5 => 36,
        }
    }

    /// The tile whose mjai tile number is `n`; the unknown tile where `n` is
    /// above `37`.
    pub open spec fn tile_from_id(n: int) -> Pai {
        if n == 37 {
            Pai::Unknown
        } else if n == 0 {
            Pai::Man1
        } else if n == 1 {
            Pai::Man2
        } else if n == 2 {
            Pai::Man3
        } else if n == 3 {
            Pai::Man4
        } else if n == 4 {
            Pai::Man5
        } else if n == 5 {
            Pai::Man6
        } else if n == 6 {
            Pai::Man7
        } else if n == 7 {
            Pai::Man8
        } else if n == 8 {
            Pai::Man9
        } else if n == 9 {
            Pai::Pin1
        } else if n == 10 {
            Pai::Pin2
        } else if n == 11 {
            Pai::Pin3
        } else if n == 12 {
            Pai::Pin4
        } else if n == 13 {
            Pai::Pin5
        } else if n == 14 {
            Pai::Pin6
        } else if n == 15 {
            Pai::Pin7
        } else if n == 16 {
            Pai::Pin8
        } else if n == 17 {
            Pai::Pin9
        } else if n == 18 {
            Pai::Sou1
        } else if n == 19 {
            Pai::Sou2
        } else if n == 20 {
            Pai::Sou3
        } else if n == 21 {
            Pai::Sou4
        } else if n == 22 {
            Pai::Sou5
        } else if n == 23 {
            Pai::Sou6
        } else if n == 24 {
            Pai::Sou7
        } else if n == 25 {
            Pai::Sou8
        } else if n == 26 {
            Pai::Sou9
        } else if n == 27 {
            Pai::East
        } else if n == 28 {
            Pai::South
        } else if n == 29 {
            Pai::West
        } else if n == 30 {
            Pai::North
        } else if n == 31 {
            Pai::Haku
        } else if n == 32 {
            Pai::Hatsu
        } else if n == 33 {
            Pai::Chun
        } else if n == 34 {
            Pai::AkaMan5
        } else if n == 35 {
            Pai::AkaPin5
        } else if n == 36 {
            Pai::AkaSou5
        } else {
            Pai::Unknown
        }
    }
}

/// Reads an mjai tile text: `"?"`, a honor letter, a digit `1..=9` followed
/// by a suit letter `m`, `p` or `s`, or `"5mr"`, `"5pr"`, `"5sr"`.
pub open spec fn pai_from_mjai(s: Seq<char>) -> Option<Pai> {
    if s.len() == 1 {
        if s[0] == '?' {
            Some(Pai::Unknown)
        } else if s[0] == 'E' {
            Some(Pai::East)
        } else if s[0] == 'S' {
            Some(Pai::South)
        } else if s[0] == 'W' {
            Some(Pai::West)
        } else if s[0] == 'N' {
            Some(Pai::North)
        } else if s[0] == 'P' {
            Some(Pai::Haku)
        } else if s[0] == 'F' {
            Some(Pai::Hatsu)
        } else if s[0] == 'C' {
            Some(Pai::Chun)
        } else {
            None
        }
    } else if s.len() == 2 {
        if '1' <= s[0] <= '9' && suit_base(s[1]) > 0 && suit_base(s[1]) < 40 {
            Pai::from_id(suit_base(s[1]) + (s[0] as int - '0' as int))
        } else {
            None
        }
    } else if s.len() == 3 {
        if s[0] == '5' && s[2] == 'r' && suit_base(s[1]) > 0 && suit_base(s[1]) < 40 {
            Some(aka_of_base(suit_base(s[1])))
        } else {
            None
        }
    } else {
        None
    }
}

/// The tenhou.net/6 base number of a suit letter: `m` 10, `p` 20, `s` 30,
/// `z` 40; 0 for any other character.
pub open spec fn suit_base(c: char) -> int {
    if c == 'm' {
        10
    } else if c == 'p' {
        20
    } else if c == 's' {
        30
    } else if c == 'z' {
        40
    } else {
        0
    }
}

/// The red five of the suit with the given base number.
pub open spec fn aka_of_base(base: int) -> Pai {
    if base == 10 {
        Pai::AkaMan5
    } else if base == 20 {
        Pai::AkaPin5
    } else {
        Pai::AkaSou5
    }
}

impl Pai {
    /// The tenhou.net/6 number of the tile.
    pub fn as_u8(self) -> (r: u8)
        ensures
            r == self.id(),
    {
        match self {
            Pai::Unknown => 0,
            Pai::Man1 => 11,
            Pai::Man2 => 12,
            Pai::Man3 => 13,
            Pai::Man4 => 14,
            Pai::Man5 => 15,
            Pai::Man6 => 16,
            Pai::Man7 => 17,
            Pai::Man8 => 18,
            Pai::Man9 => 19,
            Pai::Pin1 => 21,
            Pai::Pin2 => 22,
            Pai::Pin3 => 23,
            Pai::Pin4 => 24,
            Pai::Pin5 => 25,
            Pai::Pin6 => 26,
            Pai::Pin7 => 27,
            Pai::Pin8 => 28,
            Pai::Pin9 => 29,
            Pai::Sou1 => 31,
            Pai::Sou2 => 32,
            Pai::Sou3 => 33,
            Pai::Sou4 => 34,
            Pai::Sou5 => 35,
            Pai::Sou6 => 36,
            Pai::Sou7 => 37,
            Pai::Sou8 => 38,
            Pai::Sou9 => 39,
            Pai::East => 41,
            Pai::South => 42,
            Pai::West => 43,
            Pai::North => 44,
            Pai::Haku => 45,
            Pai::Hatsu => 46,
            Pai::Chun => 47,
            Pai::AkaMan5 => 51,
            Pai::AkaPin5 => 52,
            Pai::AkaSou5 => 53,
        }
    }

    /// The tenhou.net/6 number of the tile, as a `usize`.
    pub fn as_usize(self) -> (r: usize)
        ensures
            r == self.id(),
    {
        self.as_u8() as usize
    }

    /// The tile whose tenhou.net/6 number is `n`, if there is one.
    pub fn from_u8(n: u8) -> (r: Option<Pai>)
        ensures
            r == Pai::from_id(n as int),
    {
        match n {
            0 => Some(Pai::Unknown),
            11 => Some(Pai::Man1),
            12 => Some(Pai::Man2),
            13 => Some(Pai::Man3),
            14 => Some(Pai::Man4),
            15 => Some(Pai::Man5),
            16 => Some(Pai::Man6),
            17 => Some(Pai::Man7),
            18 => Some(Pai::Man8),
            19 => Some(Pai::Man9),
            21 => Some(Pai::Pin1),
            22 => Some(Pai::Pin2),
            23 => Some(Pai::Pin3),
            24 => Some(Pai::Pin4),
            25 => Some(Pai::Pin5),
            26 => Some(Pai::Pin6),
            27 => Some(Pai::Pin7),
            28 => Some(Pai::Pin8),
            29 => Some(Pai::Pin9),
            31 => Some(Pai::Sou1),
            32 => Some(Pai::Sou2),
            33 => Some(Pai::Sou3),
            34 => Some(Pai::Sou4),
            35 => Some(Pai::Sou5),
            36 => Some(Pai::Sou6),
            37 => Some(Pai::Sou7),
            38 => Some(Pai::Sou8),
            39 => Some(Pai::Sou9),
            41 => Some(Pai::East),
            42 => Some(Pai::South),
            43 => Some(Pai::West),
            44 => Some(Pai::North),
            45 => Some(Pai::Haku),
            46 => Some(Pai::Hatsu),
            47 => Some(Pai::Chun),
            51 => Some(Pai::AkaMan5),
            52 => Some(Pai::AkaPin5),
            53 => Some(Pai::AkaSou5),
            _ => None,
        }
    }

    /// A sort key for tiles: a red five sorts right after the plain five of
    /// its suit, and before the six.
    pub fn as_ord(self) -> (r: u8)
        ensures
            r == self.ord_key(),
    {
        match self {
            Pai::AkaMan5 => 16,
            Pai::AkaPin5 => 26,
            Pai::AkaSou5 => 36,
            _ => {
                let id = self.as_u8();
                if (16 <= id && id < 20) || (26 <= id && id < 30) || (36 <= id && id < 40) {
                    id + 1
                } else {
                    id
                }
            },
        }
    }

    /// The tenhou.net/6 number, with a red five counted as the plain five.
    pub fn as_unify_u8(self) -> (r: u8)
        ensures
            r == self.unify_id(),
    {
        match self {
            Pai::AkaMan5 => 15,
            Pai::AkaPin5 => 25,
            Pai::AkaSou5 => 35,
            _ => self.as_u8(),
        }
    }

    /// The mjai text of the tile, such as `"5m"`, `"E"` or `"5pr"`.
    pub fn mjai_str(self) -> (s: &'static str)
        ensures
            s@ == self.mjai_chars(),
    {
        proof {
            reveal_strlit("?");
            reveal_strlit("1m");
            reveal_strlit("2m");
            reveal_strlit("3m");
            reveal_strlit("4m");
            reveal_strlit("5m");
            reveal_strlit("6m");
            reveal_strlit("7m");
            reveal_strlit("8m");
            reveal_strlit("9m");
            reveal_strlit("1p");
            reveal_strlit("2p");
            reveal_strlit("3p");
            reveal_strlit("4p");
            reveal_strlit("5p");
            reveal_strlit("6p");
            reveal_strlit("7p");
            reveal_strlit("8p");
            reveal_strlit("9p");
            reveal_strlit("1s");
            reveal_strlit("2s");
            reveal_strlit("3s");
            reveal_strlit("4s");
            reveal_strlit("5s");
            reveal_strlit("6s");
            reveal_strlit("7s");
            reveal_strlit("8s");
            reveal_strlit("9s");
            reveal_strlit("E");
            reveal_strlit("S");
            reveal_strlit("W");
            reveal_strlit("N");
            reveal_strlit("P");
            reveal_strlit("F");
            reveal_strlit("C");
            reveal_strlit("5mr");
            reveal_strlit("5pr");
            reveal_strlit("5sr");
        }
        match self {
            Pai::Unknown => "?",
            Pai::Man1 => "1m",
            Pai::Man2 => "2m",
            Pai::Man3 => "3m",
            Pai::Man4 => "4m",
            Pai::Man5 => "5m",
            Pai::Man6 => "6m",
            Pai::Man7 => "7m",
            Pai::Man8 => "8m",
            Pai::Man9 => "9m",
            Pai::Pin1 => "1p",
            Pai::Pin2 => "2p",
            Pai::Pin3 => "3p",
            Pai::Pin4 => "4p",
            Pai::Pin5 => "5p",
            Pai::Pin6 => "6p",
            Pai::Pin7 => "7p",
            Pai::Pin8 => "8p",
            Pai::Pin9 => "9p",
            Pai::Sou1 => "1s",
            Pai::Sou2 => "2s",
            Pai::Sou3 => "3s",
            Pai::Sou4 => "4s",
            Pai::Sou5 => "5s",
            Pai::Sou6 => "6s",
            Pai::Sou7 => "7s",
            Pai::Sou8 => "8s",
            Pai::Sou9 => "9s",
            Pai::East => "E",
            Pai::South => "S",
            Pai::West => "W",
            Pai::North => "N",
            Pai::Haku => "P",
            Pai::Hatsu => "F",
            Pai::Chun => "C",
            Pai::AkaMan5 => "5mr",
            Pai::AkaPin5 => "5pr",
            Pai::AkaSou5 => "5sr",
        }
    }

    /// The mjai text of the tile as an owned string.
    pub fn to_mjai_string(self) -> (s: String)
        ensures
            s@ == self.mjai_chars(),
    {
        String::from_str(self.mjai_str())
    }

    /// The number of the tile in the mjai tile order.
    pub fn to_tile_id(self) -> (r: u8)
        ensures
            r == self.tile_id(),
    {
        match self {
            Pai::Unknown => 37,
            Pai::Man1 => 0,
            Pai::Man2 => 1,
            Pai::Man3 => 2,
            Pai::Man4 => 3,
            Pai::Man5 => 4,
            Pai::Man6 => 5,
            Pai::Man7 => 6,
            Pai::Man8 => 7,
            Pai::Man9 => 8,
            Pai::Pin1 => 9,
            Pai::Pin2 => 10,
            Pai::Pin3 => 11,
            Pai::Pin4 => 12,
            Pai::Pin5 => 13,
            Pai::Pin6 => 14,
            Pai::Pin7 => 15,
            Pai::Pin8 => 16,
            Pai::Pin9 => 17,
            Pai::Sou1 => 18,
            Pai::Sou2 => 19,
            Pai::Sou3 => 20,
            Pai::Sou4 => 21,
            Pai::Sou5 => 22,
            Pai::Sou6 => 23,
            Pai::Sou7 => 24,
            Pai::Sou8 => 25,
            Pai::Sou9 => 26,
            Pai::East => 27,
            Pai::South => 28,
            Pai::West => 29,
            Pai::North => 30,
            Pai::Haku => 31,
            Pai::Hatsu => 32,
            Pai::Chun => 33,
            Pai::AkaMan5 => 34,
            Pai::AkaPin5 => 35,
            Pai::AkaSou5 => 36,
        }
    }

    /// The tile with the given mjai tile number; the unknown tile for any
    /// number above `37`.
    pub fn from_tile_id(n: u8) -> (r: Pai)
        ensures
            r == Pai::tile_from_id(n as int),
    {
        match n {
            37 => Pai::Unknown,
            0 => Pai::Man1,
            1 => Pai::Man2,
            2 => Pai::Man3,
            3 => Pai::Man4,
            4 => Pai::Man5,
            5 => Pai::Man6,
            6 => Pai::Man7,
            7 => Pai::Man8,
            8 => Pai::Man9,
            9 => Pai::Pin1,
            10 => Pai::Pin2,
            11 => Pai::Pin3,
            12 => Pai::Pin4,
            13 => Pai::Pin5,
            14 => Pai::Pin6,
            15 => Pai::Pin7,
            16 => Pai::Pin8,
            17 => Pai::Pin9,
            18 => Pai::Sou1,
            19 => Pai::Sou2,
            20 => Pai::Sou3,
            21 => Pai::Sou4,
            22 => Pai::Sou5,
            23 => Pai::Sou6,
            24 => Pai::Sou7,
            25 => Pai::Sou8,
            26 => Pai::Sou9,
            27 => Pai::East,
            28 => Pai::South,
            29 => Pai::West,
            30 => Pai::North,
            31 => Pai::Haku,
            32 => Pai::Hatsu,
            33 => Pai::Chun,
            34 => Pai::AkaMan5,
            35 => Pai::AkaPin5,
            36 => Pai::AkaSou5,
            _ => Pai::Unknown,
        }
    }
}


/// Whether `c` is one of the suit letters `m`, `p`, `s`, `z` that end a group
/// in a compact tile list such as `"123m55z"`.
pub open spec fn is_suit_char(c: char) -> bool {
    c == 'm' || c == 'p' || c == 's' || c == 'z'
}

/// Whether `c` is an ASCII decimal digit.
pub open spec fn is_digit_char(c: char) -> bool {
    '0' <= c <= '9'
}

/// The first suit letter at or after position `i` of `s`, or `' '` where
/// there is none.
pub open spec fn suit_after(s: Seq<char>, i: int) -> char
    decreases s.len() - i,
{
    if i < 0 || i >= s.len() {
        ' '
    } else if is_suit_char(s[i]) {
        s[i]
    } else {
        suit_after(s, i + 1)
    }
}

/// The tile that the digit `d` stands for in a group ended by the suit letter
/// `suit`: `0` is the red five; `8z` and `9z` name no tile and read as the
/// unknown tile.
pub open spec fn pai_of_digit(d: char, suit: char) -> Pai {
    let off = d as int - '0' as int;
    if off == 0 {
        aka_of_base(suit_base(suit))
    } else {
        match Pai::from_id(suit_base(suit) + off) {
            Some(p) => p,
            None => Pai::Unknown,
        }
    }
}

/// The tiles named by the digits of `s` from position `i` on, each read in
/// the suit of the group that it belongs to.
pub open spec fn pais_from(s: Seq<char>, i: int) -> Seq<Pai>
    decreases s.len() - i,
{
    if i < 0 || i >= s.len() {
        Seq::empty()
    } else if is_digit_char(s[i]) {
        seq![pai_of_digit(s[i], suit_after(s, i))] + pais_from(s, i + 1)
    } else {
        pais_from(s, i + 1)
    }
}

/// A compact tile list is complete when it is empty or ends with a suit
/// letter.
pub open spec fn pai_list_complete(s: Seq<char>) -> bool {
    s.len() == 0 || is_suit_char(s.last())
}

/// The inputs that a compact tile list is read from: every character of a
/// group that a suit letter ends is a digit, and no `0` stands in a honor
/// (`z`) group.
pub open spec fn pai_list_readable(s: Seq<char>) -> bool {
    forall|i: int|
        0 <= i < s.len() && suit_after(s, i) != ' ' && !is_suit_char(#[trigger] s[i])
            ==> is_digit_char(s[i]) && (s[i] == '0' ==> suit_after(s, i) != 'z')
}

/// The base number of a suit letter.
fn suit_base_of(c: char) -> (r: u8)
    ensures
        r == suit_base(c),
{
    if c == 'm' {
        10
    } else if c == 'p' {
        20
    } else if c == 's' {
        30
    } else if c == 'z' {
        40
    } else {
        0
    }
}

/// The tile that a digit stands for in the group of the given suit.
fn pai_of_digit_exec(d: char, suit: char) -> (r: Pai)
    requires
        is_digit_char(d),
        is_suit_char(suit),
        d == '0' ==> suit != 'z',
    ensures
        r == pai_of_digit(d, suit),
{
    let off: u8 = (d as u32 - '0' as u32) as u8;
    let base = suit_base_of(suit);
    if off == 0 {
        if base == 10 {
            Pai::AkaMan5
        } else if base == 20 {
            Pai::AkaPin5
        } else {
            Pai::AkaSou5
        }
    } else {
        match Pai::from_u8(base + off) {
            Some(p) => p,
            None => Pai::Unknown,
        }
    }
}

proof fn lemma_suit_after_run(s: Seq<char>, k: int, j: int)
    requires
        0 <= k <= j < s.len(),
        is_suit_char(s[j]),
        forall|m: int| k <= m < j ==> !is_suit_char(#[trigger] s[m]),
    ensures
        suit_after(s, k) == s[j],
    decreases j - k,
{
    if k < j {
        lemma_suit_after_run(s, k + 1, j);
    }
}

/// Reads a compact tile list such as `"123456789p123s55m"`: each group of
/// digits is closed by its suit letter (`m`, `p`, `s` or `z` for honors), and
/// `0` stands for the red five.
pub fn get_pais_from_str(s: &str) -> (r: Result<Vec<Pai>, ParseError>)
    requires
        pai_list_readable(s@),
    ensures
        match r {
            Ok(v) => pai_list_complete(s@) && v@ == pais_from(s@, 0),
            Err(ParseError::InvalidPaiString(t)) => !pai_list_complete(s@) && t@ == s@,
        },
{
    let n = s.unicode_len();
    let mut out: Vec<Pai> = Vec::new();
    let mut i: usize = 0;
    while i < n
        invariant
            n == s@.len(),
            pai_list_readable(s@),
            i <= n,
            i == 0 || is_suit_char(s@[i - 1]),
            pais_from(s@, 0) == out@ + pais_from(s@, i as int),
        decreases n - i,
    {
        let mut j: usize = i;
        while j < n && !is_suit_char_exec(s.get_char(j))
            invariant
                n == s@.len(),
                i <= j <= n,
                forall|m: int| i <= m < j ==> !is_suit_char(#[trigger] s@[m]),
            decreases n - j,
        {
            j = j + 1;
        }
        if j == n {
            proof {
                assert(!is_suit_char(s@[n - 1]));
            }
            return Err(ParseError::InvalidPaiString(String::from_str(s)));
        }
        let suit = s.get_char(j);
        let ghost start = out@;
        let mut k: usize = i;
        while k < j
            invariant
                n == s@.len(),
                i <= k <= j < n,
                suit == s@[j as int],
                is_suit_char(suit),
                pai_list_readable(s@),
                forall|m: int| i <= m < j ==> !is_suit_char(#[trigger] s@[m]),
                pais_from(s@, 0) == out@ + pais_from(s@, k as int),
            decreases j - k,
        {
            let d = s.get_char(k);
            proof {
                lemma_suit_after_run(s@, k as int, j as int);
                assert(!is_suit_char(s@[k as int]));
            }
            let p = pai_of_digit_exec(d, suit);
            let ghost before = out@;
            out.push(p);
            proof {
                assert(pais_from(s@, k as int) == seq![p] + pais_from(s@, k + 1));
                assert(before + (seq![p] + pais_from(s@, k + 1)) =~= out@ + pais_from(s@, k + 1));
            }
            k = k + 1;
        }
        proof {
            assert(pais_from(s@, j as int) == pais_from(s@, j + 1));
        }
        i = j + 1;
    }
    proof {
        assert(out@ + pais_from(s@, n as int) =~= out@);
    }
    Ok(out)
}

/// Whether `c` is a suit letter.
fn is_suit_char_exec(c: char) -> (r: bool)
    ensures
        r == is_suit_char(c),
{
    c == 'm' || c == 'p' || c == 's' || c == 'z'
}


impl Pai {
    /// Reads a tile from its mjai text.
    pub fn from_mjai_str(s: &str) -> (r: Result<Pai, ParseError>)
        ensures
            read_from_mjai(s@, r),
    {
        let n = s.unicode_len();
        let mut found: Option<Pai> = None;
        if n == 1 {
            let c = s.get_char(0);
            found = if c == '?' {
                Some(Pai::Unknown)
            } else if c == 'E' {
                Some(Pai::East)
            } else if c == 'S' {
                Some(Pai::South)
            } else if c == 'W' {
                Some(Pai::West)
            } else if c == 'N' {
                Some(Pai::North)
            } else if c == 'P' {
                Some(Pai::Haku)
            } else if c == 'F' {
                Some(Pai::Hatsu)
            } else if c == 'C' {
                Some(Pai::Chun)
            } else {
                None
            };
        } else if n == 2 {
            let c0 = s.get_char(0);
            let c1 = s.get_char(1);
            let base = suit_base_of(c1);
            if '1' <= c0 && c0 <= '9' && base > 0 && base < 40 {
                let d: u8 = (c0 as u32 - '0' as u32) as u8;
                found = Pai::from_u8(base + d);
            }
        } else if n == 3 {
            let c0 = s.get_char(0);
            let c1 = s.get_char(1);
            let c2 = s.get_char(2);
            let base = suit_base_of(c1);
            if c0 == '5' && c2 == 'r' && base > 0 && base < 40 {
                found = Some(
                    if base == 10 {
                        Pai::AkaMan5
                    } else if base == 20 {
                        Pai::AkaPin5
                    } else {
                        Pai::AkaSou5
                    },
                );
            }
        }
        match found {
            Some(p) => Ok(p),
            None => Err(ParseError::InvalidPaiString(String::from_str(s))),
        }
    }

    /// The plain tile of the same kind: a red five becomes the plain five.
    pub open spec fn spec_deaka(self) -> Pai {
        match self {
            Pai::AkaMan5 => Pai::Man5,
            Pai::AkaPin5 => Pai::Pin5,
            Pai::AkaSou5 => Pai::Sou5,
            _ => self,
        }
    }

    /// The red tile of the same kind: a plain five becomes the red five; any
    /// other tile stays as it is.
    pub open spec fn spec_akaize(self) -> Pai {
        match self {
            Pai::Man5 => Pai::AkaMan5,
            Pai::Pin5 => Pai::AkaPin5,
            Pai::Sou5 => Pai::AkaSou5,
            _ => self,
        }
    }

    /// The tile that follows in the dora order: within a suit `9` is followed
    /// by `1`, the winds go E, S, W, N, E and the dragons P, F, C, P; a red
    /// five counts as the plain five, and the unknown tile stays unknown.
    pub open spec fn spec_next(self) -> Pai {
        match self {
            Pai::Unknown => Pai::Unknown,
            Pai::Man1 => Pai::Man2,
            Pai::Man2 => Pai::Man3,
            Pai::Man3 => Pai::Man4,
            Pai::Man4 => Pai::Man5,
            Pai::Man5 => Pai::Man6,
            Pai::Man6 => Pai::Man7,
            Pai::Man7 => Pai::Man8,
            Pai::Man8 => Pai::Man9,
            Pai::Man9 => Pai::Man1,
            Pai::Pin1 => Pai::Pin2,
            Pai::Pin2 => Pai::Pin3,
            Pai::Pin3 => Pai::Pin4,
            Pai::Pin4 => Pai::Pin5,
            Pai::Pin5 => Pai::Pin6,
            Pai::Pin6 => Pai::Pin7,
            Pai::Pin7 => Pai::Pin8,
            Pai::Pin8 => Pai::Pin9,
            Pai::Pin9 => Pai::Pin1,
            Pai::Sou1 => Pai::Sou2,
            Pai::Sou2 => Pai::Sou3,
            Pai::Sou3 => Pai::Sou4,
            Pai::Sou4 => Pai::Sou5,
            Pai::Sou5 => Pai::Sou6,
            Pai::Sou6 => Pai::Sou7,
            Pai::Sou7 => Pai::Sou8,
            Pai::Sou8 => Pai::Sou9,
            Pai::Sou9 => Pai::Sou1,
            Pai::East => Pai::South,
            Pai::South => Pai::West,
            Pai::West => Pai::North,
            Pai::North => Pai::East,
            Pai::Haku => Pai::Hatsu,
            Pai::Hatsu => Pai::Chun,
            Pai::Chun => Pai::Haku,
            Pai::AkaMan5 => Pai::Man6,
            Pai::AkaPin5 => Pai::Pin6,
            Pai::AkaSou5 => Pai::Sou6,
        }
    }

    /// The tile that precedes in the dora order; the inverse of `spec_next`
    /// on plain tiles.
    pub open spec fn spec_prev(self) -> Pai {
        match self {
            Pai::Unknown => Pai::Unknown,
            Pai::Man1 => Pai::Man9,
            Pai::Man2 => Pai::Man1,
            Pai::Man3 => Pai::Man2,
            Pai::Man4 => Pai::Man3,
            Pai::Man5 => Pai::Man4,
            Pai::Man6 => Pai::Man5,
            Pai::Man7 => Pai::Man6,
            Pai::Man8 => Pai::Man7,
            Pai::Man9 => Pai::Man8,
            Pai::Pin1 => Pai::Pin9,
            Pai::Pin2 => Pai::Pin1,
            Pai::Pin3 => Pai::Pin2,
            Pai::Pin4 => Pai::Pin3,
            Pai::Pin5 => Pai::Pin4,
            Pai::Pin6 => Pai::Pin5,
            Pai::Pin7 => Pai::Pin6,
            Pai::Pin8 => Pai::Pin7,
            Pai::Pin9 => Pai::Pin8,
            Pai::Sou1 => Pai::Sou9,
            Pai::Sou2 => Pai::Sou1,
            Pai::Sou3 => Pai::Sou2,
            Pai::Sou4 => Pai::Sou3,
            Pai::Sou5 => Pai::Sou4,
            Pai::Sou6 => Pai::Sou5,
            Pai::Sou7 => Pai::Sou6,
            Pai::Sou8 => Pai::Sou7,
            Pai::Sou9 => Pai::Sou8,
            Pai::East => Pai::North,
            Pai::South => Pai::East,
            Pai::West => Pai::South,
            Pai::North => Pai::West,
            Pai::Haku => Pai::Chun,
            Pai::Hatsu => Pai::Haku,
            Pai::Chun => Pai::Hatsu,
            Pai::AkaMan5 => Pai::Man4,
            Pai::AkaPin5 => Pai::Pin4,
            Pai::AkaSou5 => Pai::Sou4,
        }
    }

    /// The plain tile of the same kind.
    pub fn deaka(self) -> (r: Pai)
        ensures
            r == self.spec_deaka(),
    {
        match self {
            Pai::AkaMan5 => Pai::Man5,
            Pai::AkaPin5 => Pai::Pin5,
            Pai::AkaSou5 => Pai::Sou5,
            _ => self,
        }
    }

    /// The red tile of the same kind, where there is one.
    pub fn akaize(self) -> (r: Pai)
        ensures
            r == self.spec_akaize(),
    {
        match self {
            Pai::Man5 => Pai::AkaMan5,
            Pai::Pin5 => Pai::AkaPin5,
            Pai::Sou5 => Pai::AkaSou5,
            _ => self,
        }
    }

    /// The next tile in the dora order.
    pub fn next(self) -> (r: Pai)
        ensures
            r == self.spec_next(),
    {
        match self {
            Pai::Unknown => Pai::Unknown,
            Pai::Man1 => Pai::Man2,
            Pai::Man2 => Pai::Man3,
            Pai::Man3 => Pai::Man4,
            Pai::Man4 => Pai::Man5,
            Pai::Man5 => Pai::Man6,
            Pai::Man6 => Pai::Man7,
            Pai::Man7 => Pai::Man8,
            Pai::Man8 => Pai::Man9,
            Pai::Man9 => Pai::Man1,
            Pai::Pin1 => Pai::Pin2,
            Pai::Pin2 => Pai::Pin3,
            Pai::Pin3 => Pai::Pin4,
            Pai::Pin4 => Pai::Pin5,
            Pai::Pin5 => Pai::Pin6,
            Pai::Pin6 => Pai::Pin7,
            Pai::Pin7 => Pai::Pin8,
            Pai::Pin8 => Pai::Pin9,
            Pai::Pin9 => Pai::Pin1,
            Pai::Sou1 => Pai::Sou2,
            Pai::Sou2 => Pai::Sou3,
            Pai::Sou3 => Pai::Sou4,
            Pai::Sou4 => Pai::Sou5,
            Pai::Sou5 => Pai::Sou6,
            Pai::Sou6 => Pai::Sou7,
            Pai::Sou7 => Pai::Sou8,
            Pai::Sou8 => Pai::Sou9,
            Pai::Sou9 => Pai::Sou1,
            Pai::East => Pai::South,
            Pai::South => Pai::West,
            Pai::West => Pai::North,
            Pai::North => Pai::East,
            Pai::Haku => Pai::Hatsu,
            Pai::Hatsu => Pai::Chun,
            Pai::Chun => Pai::Haku,
            Pai::AkaMan5 => Pai::Man6,
            Pai::AkaPin5 => Pai::Pin6,
            Pai::AkaSou5 => Pai::Sou6,
        }
    }

    /// The previous tile in the dora order.
    pub fn prev(self) -> (r: Pai)
        ensures
            r == self.spec_prev(),
    {
        match self {
            Pai::Unknown => Pai::Unknown,
            Pai::Man1 => Pai::Man9,
            Pai::Man2 => Pai::Man1,
            Pai::Man3 => Pai::Man2,
            Pai::Man4 => Pai::Man3,
            Pai::Man5 => Pai::Man4,
            Pai::Man6 => Pai::Man5,
            Pai::Man7 => Pai::Man6,
            Pai::Man8 => Pai::Man7,
            Pai::Man9 => Pai::Man8,
            Pai::Pin1 => Pai::Pin9,
            Pai::Pin2 => Pai::Pin1,
            Pai::Pin3 => Pai::Pin2,
            Pai::Pin4 => Pai::Pin3,
            Pai::Pin5 => Pai::Pin4,
            Pai::Pin6 => Pai::Pin5,
            Pai::Pin7 => Pai::Pin6,
            Pai::Pin8 => Pai::Pin7,
            Pai::Pin9 => Pai::Pin8,
            Pai::Sou1 => Pai::Sou9,
            Pai::Sou2 => Pai::Sou1,
            Pai::Sou3 => Pai::Sou2,
            Pai::Sou4 => Pai::Sou3,
            Pai::Sou5 => Pai::Sou4,
            Pai::Sou6 => Pai::Sou5,
            Pai::Sou7 => Pai::Sou6,
            Pai::Sou8 => Pai::Sou7,
            Pai::Sou9 => Pai::Sou8,
            Pai::East => Pai::North,
            Pai::South => Pai::East,
            Pai::West => Pai::South,
            Pai::North => Pai::West,
            Pai::Haku => Pai::Chun,
            Pai::Hatsu => Pai::Haku,
            Pai::Chun => Pai::Hatsu,
            Pai::AkaMan5 => Pai::Man4,
            Pai::AkaPin5 => Pai::Pin4,
            Pai::AkaSou5 => Pai::Sou4,
        }
    }
}

impl Default for Pai {
    fn default() -> (r: Pai)
        ensures
            r == Pai::Unknown,
    {
        Pai::Unknown
    }
}

/// What reading the mjai text `s` of a tile gives: the tile it names, or an
/// error that holds the text.
pub open spec fn read_from_mjai(s: Seq<char>, r: Result<Pai, ParseError>) -> bool {
    match r {
        Ok(p) => pai_from_mjai(s) == Some(p),
        Err(ParseError::InvalidPaiString(t)) => pai_from_mjai(s) is None && t@ == s,
    }
}

impl core::str::FromStr for Pai {
    type Err = ParseError;

    fn from_str(s: &str) -> (r: Result<Pai, ParseError>)
        ensures
            read_from_mjai(s@, r),
    {
        Pai::from_mjai_str(s)
    }
}

/// Each tile's number names it: reading the number of a tile gives the tile
/// back, and a number that reads as a tile is that tile's number.
pub proof fn law_id_roundtrip(p: Pai, n: int)
    ensures
        Pai::from_id(p.id() as int) == Some(p),
        Pai::from_id(n) == Some(p) ==> p.id() == n,
{
}

/// The mjai text names each tile: reading the text of a tile gives the tile
/// back, and a text that reads as a tile is that tile's text.
pub proof fn law_mjai_text_roundtrip(p: Pai, s: Seq<char>)
    ensures
        pai_from_mjai(p.mjai_chars()) == Some(p),
        pai_from_mjai(s) == Some(p) ==> p.mjai_chars() == s,
{
    let c = p.mjai_chars();
    if c.len() == 2 {
        assert(suit_base(c[1]) > 0);
    }
    if pai_from_mjai(s) == Some(p) {
        if s.len() == 1 {
            assert(s =~= seq![s[0]]);
        } else if s.len() == 2 {
            assert(s =~= seq![s[0], s[1]]);
        } else {
            assert(s =~= seq![s[0], s[1], s[2]]);
        }
    }
}

/// The mjai tile number and the tenhou.net/6 tile are two numberings of the
/// same tiles: converting one way and back gives the start again.
pub proof fn law_tile_id_roundtrip(p: Pai, n: int)
    ensures
        Pai::tile_from_id(p.tile_id() as int) == p,
        0 <= n <= 37 ==> Pai::tile_from_id(n).tile_id() == n,
{
}

/// No two tiles share a sort key, so sorting by it orders tiles totally.
pub proof fn law_ord_key_injective(a: Pai, b: Pai)
    ensures
        a.ord_key() == b.ord_key() ==> a == b,
{
}

/// Moving forward and back in the dora order returns to the plain tile.
pub proof fn law_next_prev(p: Pai)
    ensures
        p.spec_next().spec_prev() == p.spec_deaka(),
        p.spec_prev().spec_next() == p.spec_deaka(),
{
}

} // verus!
