//! Mahjong game logs for review by AI engines: the tiles, the mjai event
//! stream, the reading of tenhou.net/6 logs into mjai events, a player's
//! hand and its shanten, and the comparison of a player's actions with an
//! engine's advice.

pub mod pai;
pub mod tehai;
pub mod shanten;
pub mod mjai;
pub mod state;
pub mod num;
pub mod kyoku_filter;
pub mod tenhou;
pub mod conv;
pub mod review;
pub mod opts;
pub mod log_source;
pub mod mjsoul_deobfuse;
pub mod tracking;
pub mod round_names;
