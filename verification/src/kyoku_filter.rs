use vstd::prelude::*;

use crate::num::{chars_of, parse_u8_chars, parse_u8_spec, IntErrorKind};

verus! {

/// The text that `char::to_uppercase` gives for `c`.
pub uninterp spec fn upper_text(c: char) -> Seq<char>;

/// The upper case of an ASCII character: `a..=z` become `A..=Z`, any other
/// stays as it is.
pub open spec fn ascii_upper(c: char) -> char {
    if 'a' <= c <= 'z' {
        ((c as u32) - 32) as char
    } else {
        c
    }
}

/// The upper case of a character as text: the ASCII upper case of an ASCII
/// character, what `char::to_uppercase` gives otherwise.
pub open spec fn upper_of(c: char) -> Seq<char> {
    if (c as u32) < 128 {
        seq![ascii_upper(c)]
    } else {
        upper_text(c)
    }
}

/// Calls `char::to_uppercase` and collects the result into a `String`.
///
/// Claimed of std: the result is the Unicode upper case of `c`, named
/// `upper_text`; for an ASCII character it is the one character that ASCII
/// upper-casing gives. What it is for other characters is left unsaid.
#[verifier::external_body]
fn char_to_upper(c: char) -> (s: String)
    ensures
        s@ == upper_text(c),
        (c as u32) < 128 ==> s@ == seq![ascii_upper(c)],
{
    c.to_uppercase().to_string()
}

/// Why a kyoku list could not be read.
#[derive(Debug)]
pub enum ParseError {
    /// An entry is empty.
    MissingBakaze,
    /// An entry has a wind but no kyoku number.
    MissingKyoku,
    /// The wind of an entry, upper-cased, is not one of `E`, `S`, `W`, `N`.
    InvalidBakaze(String),
    /// The kyoku number is not a decimal `u8`.
    InvalidKyoku(IntErrorKind),
    /// The honba after the `.` is not a decimal `u8`.
    InvalidHonba(IntErrorKind),
    /// The kyoku number is not within 1 to 4.
    InvalidKyokuRange(u8),
}

/// What went wrong with an entry, without the text that the error carries.
#[derive(Debug, Clone, Copy, PartialEq, Eq, Structural)]
pub enum EntryFailure {
    MissingBakaze,
    MissingKyoku,
    InvalidBakaze,
    InvalidKyoku(IntErrorKind),
    InvalidHonba(IntErrorKind),
    InvalidKyokuRange(u8),
}

/// The first comma at or after `i`, or the length of `s`.
pub open spec fn comma_from(s: Seq<char>, i: int) -> int
    decreases s.len() - i,
{
    if i < 0 || i >= s.len() {
        s.len() as int
    } else if s[i] == ',' {
        i
    } else {
        comma_from(s, i + 1)
    }
}

proof fn lemma_comma_from(s: Seq<char>, i: int)
    requires
        0 <= i <= s.len(),
    ensures
        i <= comma_from(s, i) <= s.len(),
    decreases s.len() - i,
{
    if i < s.len() {
        lemma_comma_from(s, i + 1);
    }
}

/// The comma-separated entries of `s` from position `i` on, as pairs of
/// start and end positions.
pub open spec fn entries_from(s: Seq<char>, i: int) -> Seq<(int, int)>
    decreases s.len() - i,
{
    let j = comma_from(s, i);
    if i < 0 || i > s.len() || j < i || j >= s.len() {
        seq![(i, s.len() as int)]
    } else {
        seq![(i, j)] + entries_from(s, j + 1)
    }
}

/// The kyoku (0-based, counting E1 as 0 and N4 as 15) and the honba that one
/// entry such as `"E1"`, `"s3.1"` names.
pub open spec fn parse_entry(p: Seq<char>) -> Result<(u8, u8), EntryFailure> {
    if p.len() == 0 {
        Err(EntryFailure::MissingBakaze)
    } else {
        let u = upper_of(p[0]);
        let off: int = if u == seq!['E'] {
            0
        } else if u == seq!['S'] {
            4
        } else if u == seq!['W'] {
            8
        } else if u == seq!['N'] {
            12
        } else {
            -1
        };
        if off < 0 {
            Err(EntryFailure::InvalidBakaze)
        } else if p.len() < 2 {
            Err(EntryFailure::MissingKyoku)
        } else {
            match parse_u8_spec(seq![p[1]]) {
                Err(k) => Err(EntryFailure::InvalidKyoku(k)),
                Ok(n) => if n < 1 || n > 4 {
                    Err(EntryFailure::InvalidKyokuRange(n))
                } else if p.len() >= 3 && p[2] == '.' {
                    match parse_u8_spec(p.skip(3)) {
                        Err(k) => Err(EntryFailure::InvalidHonba(k)),
                        Ok(h) => Ok(((off + n - 1) as u8, h)),
                    }
                } else {
                    Ok(((off + n - 1) as u8, 0u8))
                },
            }
        }
    }
}

/// Reads the entries `es[k..]` of `s` into the honba lists `wl`, one list per
/// kyoku: the first entry that fails stops the reading.
pub open spec fn read_entries(s: Seq<char>, es: Seq<(int, int)>, k: int, wl: Seq<Seq<u8>>) -> Result<
    Seq<Seq<u8>>,
    (EntryFailure, int),
>
    decreases es.len() - k,
{
    if k < 0 || k >= es.len() {
        Ok(wl)
    } else {
        match parse_entry(s.subrange(es[k].0, es[k].1)) {
            Err(f) => Err((f, k)),
            Ok((ky, h)) => read_entries(
                s,
                es,
                k + 1,
                wl.update(ky as int, wl[ky as int].push(h)),
            ),
        }
    }
}

/// The contents of the honba lists.
pub open spec fn lists_view(w: Seq<Vec<u8>>) -> Seq<Seq<u8>> {
    Seq::new(w.len(), |i: int| w[i]@)
}

/// The sixteen empty honba lists.
pub open spec fn empty_whitelist() -> Seq<Seq<u8>> {
    Seq::new(16, |i: int| Seq::<u8>::empty())
}

/// A list of the kyokus to review, such as `"E1,E4,S3.1"`: East 1, East 4
/// and South 3 with one honba (no honba given means none).
#[derive(Debug)]
pub struct KyokuFilter {
    whitelist: Vec<Vec<u8>>,
}

impl KyokuFilter {
    /// For each of the sixteen kyokus, the honbas to review.
    pub closed spec fn honbas(self) -> Seq<Seq<u8>> {
        lists_view(self.whitelist@)
    }

    /// The kyoku (0-based, E1 is 0) with the given honba is in the list.
    pub open spec fn admits(self, kyoku: u8, honba: u8) -> bool {
        kyoku < 16 && self.honbas()[kyoku as int].contains(honba)
    }

    #[verifier::type_invariant]
    spec fn wf(self) -> bool {
        self.whitelist@.len() == 16
    }

    /// Reads a kyoku list.
    pub fn parse(s: &str) -> (r: Result<KyokuFilter, ParseError>)
        ensures
            parsed_from(s@, r),
    {
        let chars = chars_of(s);
        let n = chars.len();
        let mut whitelist: Vec<Vec<u8>> = Vec::new();
        let mut i: usize = 0;
        while i < 16
            invariant
                i <= 16,
                whitelist@.len() == i,
                forall|j: int| 0 <= j < i ==> (#[trigger] whitelist@[j])@ == Seq::<u8>::empty(),
            decreases 16 - i,
        {
            whitelist.push(Vec::new());
            i = i + 1;
        }
        let ghost es = entries_from(chars@, 0);
        let ghost wl0 = lists_view(whitelist@);
        proof {
            assert(wl0 =~= empty_whitelist());
        }
        let mut start: usize = 0;
        let ghost mut k: int = 0;
        loop
            invariant
                chars@ == s@,
                es == entries_from(chars@, 0),
                n == chars@.len(),
                start <= n,
                whitelist@.len() == 16,
                0 <= k,
                entries_from(chars@, start as int) == es.skip(k),
                k < es.len(),
                read_entries(chars@, es, 0, empty_whitelist()) == read_entries(
                    chars@,
                    es,
                    k,
                    lists_view(whitelist@),
                ),
            decreases n - start,
        {
            let mut j: usize = start;
            while j < n && chars[j] != ','
                invariant
                    start <= j <= n,
                    n == chars@.len(),
                    comma_from(chars@, start as int) == comma_from(chars@, j as int),
                decreases n - j,
            {
                j = j + 1;
            }
            proof {
                lemma_comma_from(chars@, start as int);
                assert(comma_from(chars@, j as int) == j as int);
                assert(es.skip(k)[0] == (start as int, j as int));
                assert(es[k] == (start as int, j as int));
            }
            let entry = parse_entry_exec(&chars, start, j);
            match entry {
                Err(e) => {
                    proof {
                        let p = chars@.subrange(start as int, j as int);
                        let cur = lists_view(whitelist@);
                        assert(read_entries(chars@, es, k, cur) == Err::<Seq<Seq<u8>>, (EntryFailure, int)>(
                            (parse_entry(p)->Err_0, k),
                        ));
                    }
                    return Err(e);
                },
                Ok((ky, h)) => {
                    let ghost before = lists_view(whitelist@);
                    let mut list: Vec<u8> = Vec::new();
                    std::mem::swap(&mut list, &mut whitelist[ky as usize]);
                    list.push(h);
                    whitelist.set(ky as usize, list);
                    proof {
                        assert(lists_view(whitelist@) =~= before.update(
                            ky as int,
                            before[ky as int].push(h),
                        ));
                        assert(read_entries(chars@, es, k, before) == read_entries(
                            chars@,
                            es,
                            k + 1,
                            lists_view(whitelist@),
                        ));
                    }
                },
            }
            if j >= n {
                proof {
                    assert(es.skip(k).len() == 1);
                    assert(k + 1 == es.len());
                }
                let f = KyokuFilter { whitelist };
                proof {
                    assert(f.honbas() =~= lists_view(f.whitelist@));
                }
                return Ok(f);
            }
            proof {
                assert(entries_from(chars@, start as int) == seq![(start as int, j as int)]
                    + entries_from(chars@, j + 1));
                assert(es.skip(k).drop_first() =~= es.skip(k + 1));
                assert(es.skip(k).drop_first() =~= entries_from(chars@, j + 1));
                assert(entries_from(chars@, j + 1).len() >= 1);
                k = k + 1;
            }
            start = j + 1;
        }
    }

    /// Whether the kyoku (0-based, E1 is 0) with the given honba is in the
    /// list; a kyoku number of 16 or more never is.
    pub fn test(&self, kyoku: u8, honba: u8) -> (r: bool)
        ensures
            r == self.admits(kyoku, honba),
    {
        proof {
            use_type_invariant(self);
        }
        if kyoku >= 16 {
            return false;
        }
        let list = &self.whitelist[kyoku as usize];
        let mut i: usize = 0;
        while i < list.len()
            invariant
                i <= list.len(),
                kyoku < 16,
                self.whitelist@.len() == 16,
                list@ == self.whitelist@[kyoku as int]@,
                forall|j: int| 0 <= j < i ==> list@[j] != honba,
            decreases list.len() - i,
        {
            if list[i] == honba {
                proof {
                    assert(self.honbas()[kyoku as int] == list@);
                    assert(list@[i as int] == honba);
                }
                return true;
            }
            i = i + 1;
        }
        proof {
            assert(self.honbas()[kyoku as int] == list@);
        }
        false
    }
}

/// The error value matches the failure of the entry `p`.
pub open spec fn error_for(e: ParseError, f: EntryFailure, p: Seq<char>) -> bool {
    match f {
        EntryFailure::MissingBakaze => e matches ParseError::MissingBakaze,
        EntryFailure::MissingKyoku => e matches ParseError::MissingKyoku,
        EntryFailure::InvalidBakaze => e matches ParseError::InvalidBakaze(t) && t@ == upper_of(p[0]),
        EntryFailure::InvalidKyoku(k) => e matches ParseError::InvalidKyoku(k2) && k == k2,
        EntryFailure::InvalidHonba(k) => e matches ParseError::InvalidHonba(k2) && k == k2,
        EntryFailure::InvalidKyokuRange(n) => e matches ParseError::InvalidKyokuRange(n2) && n == n2,
    }
}

/// Whether a text is the one character `c`.
fn is_single(s: &String, c: char) -> (r: bool)
    ensures
        r == (s@ == seq![c]),
{
    let t = s.as_str();
    if t.unicode_len() != 1 {
        return false;
    }
    let r = t.get_char(0) == c;
    proof {
        if r {
            assert(s@ =~= seq![c]);
        }
    }
    r
}

/// Reads the entry `chars[from..to]`.
fn parse_entry_exec(chars: &Vec<char>, from: usize, to: usize) -> (r: Result<(u8, u8), ParseError>)
    requires
        from <= to <= chars@.len(),
    ensures
        match parse_entry(chars@.subrange(from as int, to as int)) {
            Ok(v) => r == Ok::<(u8, u8), ParseError>(v),
            Err(f) => r matches Err(e) && error_for(e, f, chars@.subrange(from as int, to as int)),
        },
{
    let ghost p = chars@.subrange(from as int, to as int);
    if from == to {
        return Err(ParseError::MissingBakaze);
    }
    let u = char_to_upper(chars[from]);
    let offset: u8 = if is_single(&u, 'E') {
        0
    } else if is_single(&u, 'S') {
        4
    } else if is_single(&u, 'W') {
        8
    } else if is_single(&u, 'N') {
        12
    } else {
        return Err(ParseError::InvalidBakaze(u));
    };
    if to - from < 2 {
        return Err(ParseError::MissingKyoku);
    }
    let one = [chars[from + 1]];
    proof {
        assert(one@ =~= seq![p[1]]);
    }
    let kyoku_num = match parse_u8_chars(one.as_slice()) {
        Ok(n) => n,
        Err(k) => {
            return Err(ParseError::InvalidKyoku(k));
        },
    };
    if kyoku_num < 1 || kyoku_num > 4 {
        return Err(ParseError::InvalidKyokuRange(kyoku_num));
    }
    let kyoku = offset + kyoku_num - 1;
    if to - from >= 3 && chars[from + 2] == '.' {
        let mut rest: Vec<char> = Vec::new();
        let mut i: usize = from + 3;
        while i < to
            invariant
                from + 3 <= i <= to <= chars@.len(),
                p == chars@.subrange(from as int, to as int),
                rest@ == chars@.subrange(from + 3, i as int),
            decreases to - i,
        {
            rest.push(chars[i]);
            i = i + 1;
            proof {
                assert(rest@ =~= chars@.subrange(from + 3, i as int));
            }
        }
        proof {
            assert(rest@ =~= p.skip(3));
        }
        match parse_u8_chars(rest.as_slice()) {
            Ok(h) => Ok((kyoku, h)),
            Err(k) => Err(ParseError::InvalidHonba(k)),
        }
    } else {
        Ok((kyoku, 0))
    }
}

/// What reading the kyoku list `s` gives: the kyokus and honbas that its
/// entries name, or the error of its first entry that does not read.
pub open spec fn parsed_from(s: Seq<char>, r: Result<KyokuFilter, ParseError>) -> bool {
    let es = entries_from(s, 0);
    match read_entries(s, es, 0, empty_whitelist()) {
        Ok(wl) => r matches Ok(f) && f.honbas() == wl,
        Err((fail, k)) => r matches Err(e) && error_for(e, fail, s.subrange(es[k].0, es[k].1)),
    }
}

impl core::str::FromStr for KyokuFilter {
    type Err = ParseError;

    fn from_str(s: &str) -> (r: Result<KyokuFilter, ParseError>)
        ensures
            parsed_from(s@, r),
    {
        KyokuFilter::parse(s)
    }
}

/// Entry `j` of the list `s` names kyoku `ky` with honba `h`.
pub open spec fn entry_is(s: Seq<char>, j: int, ky: u8, h: u8) -> bool {
    let es = entries_from(s, 0);
    &&& 0 <= j < es.len()
    &&& parse_entry(s.subrange(es[j].0, es[j].1)) == Ok::<(u8, u8), EntryFailure>((ky, h))
}

/// Some entry of the list `s` names kyoku `ky` with honba `h`.
pub open spec fn entry_names(s: Seq<char>, ky: u8, h: u8) -> bool {
    exists|j: int| #[trigger] entry_is(s, j, ky, h)
}

/// An entry that reads names one of the sixteen kyokus.
proof fn lemma_parse_entry_kyoku(p: Seq<char>)
    ensures
        parse_entry(p) matches Ok((ky, _)) ==> ky < 16,
{
}

/// Reading the entries from `k` on adds to the lists exactly the honbas
/// that those entries name.
proof fn lemma_read_entries_members(
    s: Seq<char>,
    es: Seq<(int, int)>,
    k: int,
    wl: Seq<Seq<u8>>,
    ky: u8,
    h: u8,
)
    requires
        0 <= k,
        wl.len() == 16,
        read_entries(s, es, k, wl) is Ok,
    ensures
        ({
            let out = read_entries(s, es, k, wl)->Ok_0;
            &&& out.len() == 16
            &&& (ky < 16 && out[ky as int].contains(h)) <==> ((ky < 16 && wl[ky as int].contains(h))
                || exists|j: int|
                k <= j < es.len() && parse_entry(s.subrange(es[j].0, es[j].1)) == Ok::<
                    (u8, u8),
                    EntryFailure,
                >((ky, h)))
        }),
    decreases es.len() - k,
{
    if k < es.len() {
        let p = s.subrange(es[k].0, es[k].1);
        lemma_parse_entry_kyoku(p);
        if let Ok((x, y)) = parse_entry(p) {
            let wl2 = wl.update(x as int, wl[x as int].push(y));
            lemma_read_entries_members(s, es, k + 1, wl2, ky, h);
            let out = read_entries(s, es, k, wl)->Ok_0;
            if ky < 16 && out[ky as int].contains(h) {
                if !(wl[ky as int].contains(h)) && !(exists|j: int|
                    k + 1 <= j < es.len() && parse_entry(s.subrange(es[j].0, es[j].1)) == Ok::<
                        (u8, u8),
                        EntryFailure,
                    >((ky, h))) {
                    assert(wl2[ky as int].contains(h));
                    if ky as int != x as int {
                        assert(wl2[ky as int] == wl[ky as int]);
                    } else {
                        let i = choose|i: int| 0 <= i < wl2[ky as int].len() && wl2[ky as int][i] == h;
                        if i < wl[ky as int].len() {
                            assert(wl[ky as int][i] == h);
                        }
                        assert(y == h);
                    }
                }
            }
            if ky < 16 && wl[ky as int].contains(h) {
                let i = choose|i: int| 0 <= i < wl[ky as int].len() && wl[ky as int][i] == h;
                assert(wl2[ky as int][i] == h);
            }
            if x == ky && y == h {
                assert(wl2[ky as int][wl[ky as int].len() as int] == h);
            }
        }
    }
}

/// A kyoku list admits exactly the kyokus and honbas that its entries name:
/// `"E1,E4,S3.1"` admits East 1 and East 4 with no honba and South 3 with
/// one honba, and nothing else.
pub proof fn law_filter_admits_named(s: Seq<char>, f: KyokuFilter, ky: u8, h: u8)
    requires
        read_entries(s, entries_from(s, 0), 0, empty_whitelist()) == Ok::<
            Seq<Seq<u8>>,
            (EntryFailure, int),
        >(f.honbas()),
    ensures
        f.admits(ky, h) <==> entry_names(s, ky, h),
{
    let es = entries_from(s, 0);
    lemma_read_entries_members(s, es, 0, empty_whitelist(), ky, h);
    if entry_names(s, ky, h) {
        let j = choose|j: int| #[trigger] entry_is(s, j, ky, h);
        assert(0 <= j < es.len() && parse_entry(s.subrange(es[j].0, es[j].1)) == Ok::<
            (u8, u8),
            EntryFailure,
        >((ky, h)));
    }
    if f.admits(ky, h) {
        assert(!empty_whitelist()[ky as int].contains(h));
        let j = choose|j: int|
            0 <= j < es.len() && parse_entry(s.subrange(es[j].0, es[j].1)) == Ok::<
                (u8, u8),
                EntryFailure,
            >((ky, h));
        assert(entry_is(s, j, ky, h));
    }
}

} // verus!
