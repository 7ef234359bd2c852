use vstd::prelude::*;

use crate::num::{chars_of, decimal_chars, parse_u8_spec, parse_u8_str, u8_to_decimal};
use crate::opts::Engine;

verus! {

/// Where a log comes from.
#[derive(Debug)]
pub enum LogSource {
    /// A Tenhou log, by its ID.
    Tenhou(String),
    /// A file, by its name.
    File(String),
    /// The standard input.
    Stdin,
}

impl LogSource {
    /// The name of the report file where none is given: the engine, the
    /// log ID and the player (`{engine}-{id}&tw={player}`) where a Tenhou
    /// log ID is known, `{engine}-report` otherwise.
    pub open spec fn default_name(self, engine: Engine, player_id: u8) -> Seq<char> {
        match self {
            LogSource::Tenhou(id) => engine.spec_name() + seq!['-'] + id@ + seq!['&', 't', 'w', '=']
                + decimal_chars(player_id as nat),
            _ => engine.spec_name() + seq!['-', 'r', 'e', 'p', 'o', 'r', 't'],
        }
    }

    /// The name of the report file where none is given.
    pub fn default_output_filename(&self, engine: Engine, player_id: u8) -> (r: String)
        ensures
            r@ == self.default_name(engine, player_id),
    {
        match self {
            LogSource::Tenhou(id) => {
                let mut s = String::from_str(engine.name());
                proof {
                    reveal_strlit("-");
                    reveal_strlit("&tw=");
                }
                s.append("-");
                s.append(id.as_str());
                s.append("&tw=");
                let num = u8_to_decimal(player_id);
                s.append(num.as_str());
                proof {
                    assert(s@ =~= self.default_name(engine, player_id));
                }
                s
            },
            _ => {
                let mut s = String::from_str(engine.name());
                proof {
                    reveal_strlit("-report");
                }
                s.append("-report");
                proof {
                    assert(s@ =~= self.default_name(engine, player_id));
                }
                s
            },
        }
    }

    /// The Tenhou log ID, for a Tenhou log.
    pub fn log_id(&self) -> (r: Option<&str>)
        ensures
            match self {
                LogSource::Tenhou(id) => r matches Some(s) && s@ == id@,
                _ => r is None,
            },
    {
        match self {
            LogSource::Tenhou(id) => Some(id.as_str()),
            _ => None,
        }
    }
}


/// Why the query of a Tenhou log URL could not be read.
#[derive(Debug, PartialEq, Eq, Structural)]
pub enum QueryError {
    /// The value of `tw` is not a decimal number of at most 255.
    TwNotNumber,
    /// The value of `tw` names no seat.
    TwOutOfRange(u8),
}

/// The key `log` of a URL query.
pub open spec fn log_key() -> Seq<char> {
    seq!['l', 'o', 'g']
}

/// The key `tw` of a URL query.
pub open spec fn tw_key() -> Seq<char> {
    seq!['t', 'w']
}

/// Reads the query pairs `q[i..]` of a Tenhou log URL, with the log ID and
/// seat found so far: a `log` pair gives the log ID, a `tw` pair the seat
/// (a number below 4), each later one in place of an earlier one; other
/// keys are passed over, and reading stops once both are known.
pub open spec fn scan_query(
    q: Seq<(Seq<char>, Seq<char>)>,
    i: int,
    log: Option<Seq<char>>,
    tw: Option<u8>,
) -> Result<(Option<Seq<char>>, Option<u8>), QueryError>
    decreases q.len() - i,
{
    if i < 0 || i >= q.len() {
        Ok((log, tw))
    } else {
        let (k, v) = q[i];
        if k == log_key() {
            if tw is Some {
                Ok((Some(v), tw))
            } else {
                scan_query(q, i + 1, Some(v), tw)
            }
        } else if k == tw_key() {
            match parse_u8_spec(v) {
                Err(_) => Err(QueryError::TwNotNumber),
                Ok(n) => if n >= 4 {
                    Err(QueryError::TwOutOfRange(n))
                } else if log is Some {
                    Ok((log, Some(n)))
                } else {
                    scan_query(q, i + 1, log, Some(n))
                },
            }
        } else {
            scan_query(q, i + 1, log, tw)
        }
    }
}

/// The views of query pairs.
pub open spec fn pairs_view(q: Seq<(String, String)>) -> Seq<(Seq<char>, Seq<char>)> {
    Seq::new(q.len(), |i: int| (q[i].0@, q[i].1@))
}

/// Whether the text is exactly the given characters.
fn text_is(s: &str, t: &[char]) -> (r: bool)
    ensures
        r == (s@ == t@),
{
    let c = chars_of(s);
    if c.len() != t.len() {
        return false;
    }
    let mut i: usize = 0;
    while i < c.len()
        invariant
            c@ == s@,
            c@.len() == t@.len(),
            i <= c@.len(),
            forall|j: int| 0 <= j < i ==> c@[j] == t@[j],
        decreases c@.len() - i,
    {
        if c[i] != t[i] {
            return false;
        }
        i = i + 1;
    }
    proof {
        assert(c@ =~= t@);
    }
    true
}

/// Reads the log ID and the seat from the decoded query pairs of a Tenhou
/// log URL, in order: `log` gives the ID, `tw` the seat, which must be a
/// number below 4; reading stops once both are known.
pub fn tenhou_query(pairs: &[(String, String)]) -> (r: Result<(Option<String>, Option<u8>), QueryError>)
    ensures
        match scan_query(pairs_view(pairs@), 0, None, None) {
            Ok((log, tw)) => r matches Ok((l, t)) && t == tw && match (l, log) {
                (Some(a), Some(b)) => a@ == b,
                (None, None) => true,
                _ => false,
            },
            Err(e) => r == Err::<(Option<String>, Option<u8>), QueryError>(e),
        },
{
    let ghost q = pairs_view(pairs@);
    let log_k = ['l', 'o', 'g'];
    let tw_k = ['t', 'w'];
    proof {
        assert(log_k@ =~= log_key());
        assert(tw_k@ =~= tw_key());
    }
    let mut log: Option<String> = None;
    let mut tw: Option<u8> = None;
    let mut i: usize = 0;
    while i < pairs.len()
        invariant
            q == pairs_view(pairs@),
            log_k@ == log_key(),
            tw_k@ == tw_key(),
            i <= pairs@.len(),
            !(log is Some && tw is Some),
            scan_query(q, 0, None, None) == scan_query(
                q,
                i as int,
                match log {
                    Some(l) => Some(l@),
                    None => None,
                },
                tw,
            ),
        decreases pairs@.len() - i,
    {
        let (k, v) = (&pairs[i].0, &pairs[i].1);
        proof {
            assert(q[i as int] == (k@, v@));
        }
        if text_is(k.as_str(), log_k.as_slice()) {
            log = Some(v.clone());
            if tw.is_some() {
                return Ok((log, tw));
            }
        } else if text_is(k.as_str(), tw_k.as_slice()) {
            match parse_u8_str(v.as_str()) {
                Err(_) => return Err(QueryError::TwNotNumber),
                Ok(n) => {
                    if n >= 4 {
                        return Err(QueryError::TwOutOfRange(n));
                    }
                    tw = Some(n);
                    if log.is_some() {
                        return Ok((log, tw));
                    }
                },
            }
        }
        i = i + 1;
    }
    Ok((log, tw))
}

} // verus!
