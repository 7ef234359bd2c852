use vstd::prelude::*;

use crate::num::{int_error_string, int_error_text, parse_u8_spec, parse_u8_str, IntErrorKind};

verus! {

/// An engine that reviews a game.
#[derive(Debug, Clone, Copy, PartialEq, Eq, Structural)]
pub enum Engine {
    Mortal,
    Akochan,
}

impl Engine {
    /// The engine's name, in lower case.
    pub open spec fn spec_name(self) -> Seq<char> {
        match self {
            Engine::Mortal => seq!['m', 'o', 'r', 't', 'a', 'l'],
            Engine::Akochan => seq!['a', 'k', 'o', 'c', 'h', 'a', 'n'],
        }
    }

    /// The engine's name, in lower case.
    pub fn name(self) -> (s: &'static str)
        ensures
            s@ == self.spec_name(),
    {
        proof {
            reveal_strlit("mortal");
            reveal_strlit("akochan");
        }
        match self {
            Engine::Mortal => "mortal",
            Engine::Akochan => "akochan",
        }
    }

    /// The engine's name, in lower case, as its own text.
    pub fn to_string(self) -> (s: String)
        ensures
            s@ == self.spec_name(),
    {
        String::from_str(self.name())
    }
}

/// What reading a player's number gives: the number where it is one of
/// `0..=3`, else the message of the failure.
pub open spec fn player_id_result(s: Seq<char>) -> Result<u8, Seq<char>> {
    match parse_u8_spec(s) {
        Ok(id) => if id < 4 {
            Ok(id)
        } else {
            Err(s + seq![' ', 'i', 's', ' ', 'n', 'o', 't', ' ', 'w', 'i', 't', 'h', 'i', 'n', ' ', '0', '-', '3'])
        },
        Err(k) => Err(int_error_text(k)),
    }
}

/// Reads the number of the player to review, which must be one of `0..=3`.
pub fn parse_player_id(s: &str) -> (r: Result<u8, String>)
    ensures
        match player_id_result(s@) {
            Ok(id) => r == Ok::<u8, String>(id),
            Err(m) => r matches Err(e) && e@ == m,
        },
{
    match parse_u8_str(s) {
        Ok(id) => {
            if id >= 4 {
                let mut m = String::from_str(s);
                let tail = " is not within 0-3";
                proof {
                    reveal_strlit(" is not within 0-3");
                }
                m.append(tail);
                Err(m)
            } else {
                Ok(id)
            }
        },
        Err(k) => Err(int_error_string(k)),
    }
}

/// Where the reports and the converted logs go, and how the report looks.
#[derive(Debug)]
pub struct OutputOptions {
    /// The file of the report: `-` for the standard output, none for a name
    /// made from the engine and the log.
    pub out_file: Option<String>,
    /// The file to save the downloaded tenhou.net/6 log to.
    pub tenhou_out: Option<String>,
    /// The file to save the converted mjai log to.
    pub mjai_out: Option<String>,
    /// Write the report as JSON.
    pub json: bool,
    /// Leave the log viewer out of the report.
    pub without_log_viewer: bool,
    /// Leave the player names out of the report.
    pub anonymous: bool,
    /// Do not open the report once written.
    pub no_open: bool,
}

} // verus!
