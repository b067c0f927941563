//! Building the storage row for a solved game: the principal variation
//! is serialized as a JSON list of move texts, the shape the downstream
//! storage depends on.

use vstd::prelude::*;

use crate::tree_processing::texts_view;

verus! {

/// One solved game, ready for storage: which game, on what board size,
/// how many plies were rewound before searching, the certified depth of
/// the forced win, and its principal variation as a JSON list of move
/// texts.
#[derive(Debug, PartialEq, Eq)]
pub struct TinueGameRow {
    /// The identifier of the solved game.
    pub gameid: u32,
    /// The board size the game was played on.
    pub size: u32,
    /// How many plies were rewound from the end before searching.
    pub plies_to_undo: u32,
    /// The certified depth of the forced win, in plies.
    pub tinue_depth: u32,
    /// The principal variation, as a JSON list of move texts.
    pub tinue: String,
}

/// The JSON text of a list of strings.
pub uninterp spec fn json_of(lines: Seq<Seq<char>>) -> Seq<char>;

/// Relies on serde_json::to_string: the JSON text of a list of strings
/// depends on the strings alone, and serializing a `Vec<String>` cannot
/// fail — only a failing `Serialize` impl or a map with non-string keys
/// can, and `String`'s `Serialize` never fails.
#[verifier::external_body]
fn lines_to_json(lines: &Vec<String>) -> (r: String)
    ensures
        r@ == json_of(texts_view(lines@)),
{
    serde_json::to_string(lines).unwrap()
}

/// Builds the storage row for one solved game, serializing its principal
/// variation as a JSON list of move texts.
pub fn make_tinue_row(
    gameid: u32,
    size: u32,
    plies_to_undo: u32,
    tinue_depth: u32,
    pv_lines: &Vec<String>,
) -> (r: TinueGameRow)
    ensures
        r.gameid == gameid,
        r.size == size,
        r.plies_to_undo == plies_to_undo,
        r.tinue_depth == tinue_depth,
        r.tinue@ == json_of(texts_view(pv_lines@)),
{
    TinueGameRow {
        gameid: gameid,
        size: size,
        plies_to_undo: plies_to_undo,
        tinue_depth: tinue_depth,
        tinue: lines_to_json(pv_lines),
    }
}

} // verus!
