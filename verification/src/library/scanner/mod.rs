//! Reading what a file's tags say.
use vstd::prelude::*;
use crate::text;
use crate::text::same_text;

pub mod comments;
pub mod duplicates;
pub mod frames;
pub mod laws;
pub mod raw_tags;
pub mod tags;

verus! {

// ── Names ────────────────────────────────────────────────────────────────────

/// The readable name of a common ID3 frame identifier.
pub open spec fn field_name(id: Seq<char>) -> Seq<char> {
    if id == "TIT2"@ || id == "TT2"@ {
        "title"@
    } else if id == "TPE1"@ || id == "TP1"@ {
        "artist"@
    } else if id == "TPE2"@ || id == "TP2"@ {
        "album artist"@
    } else if id == "TALB"@ || id == "TAL"@ {
        "album"@
    } else if id == "TRCK"@ || id == "TRK"@ {
        "track number"@
    } else if id == "TPOS"@ || id == "TPA"@ {
        "disc number"@
    } else if id == "TYER"@ || id == "TYE"@ || id == "TDRC"@ {
        "year"@
    } else if id == "TCON"@ || id == "TCO"@ {
        "genre"@
    } else if id == "TXXX"@ || id == "TXX"@ {
        "user-defined text"@
    } else if id == "TBPM"@ || id == "TBP"@ {
        "BPM"@
    } else if id == "TCOM"@ || id == "TCM"@ {
        "composer"@
    } else if id == "TPUB"@ || id == "TPB"@ {
        "publisher"@
    } else if id == "TIT1"@ || id == "TT1"@ {
        "content group"@
    } else if id == "TIT3"@ || id == "TT3"@ {
        "subtitle"@
    } else if id == "TOPE"@ || id == "TOA"@ {
        "original artist"@
    } else if id == "COMM"@ || id == "COM"@ {
        "comment"@
    } else {
        "unknown field"@
    }
}

/// The readable name of a common ID3 frame identifier.
pub fn frame_id_to_field_name(id: &str) -> (r: &'static str)
    ensures
        r@ == field_name(id@),
{
    if same_text(id, "TIT2") || same_text(id, "TT2") {
        "title"
    } else if same_text(id, "TPE1") || same_text(id, "TP1") {
        "artist"
    } else if same_text(id, "TPE2") || same_text(id, "TP2") {
        "album artist"
    } else if same_text(id, "TALB") || same_text(id, "TAL") {
        "album"
    } else if same_text(id, "TRCK") || same_text(id, "TRK") {
        "track number"
    } else if same_text(id, "TPOS") || same_text(id, "TPA") {
        "disc number"
    } else if same_text(id, "TYER") || same_text(id, "TYE") || same_text(id, "TDRC") {
        "year"
    } else if same_text(id, "TCON") || same_text(id, "TCO") {
        "genre"
    } else if same_text(id, "TXXX") || same_text(id, "TXX") {
        "user-defined text"
    } else if same_text(id, "TBPM") || same_text(id, "TBP") {
        "BPM"
    } else if same_text(id, "TCOM") || same_text(id, "TCM") {
        "composer"
    } else if same_text(id, "TPUB") || same_text(id, "TPB") {
        "publisher"
    } else if same_text(id, "TIT1") || same_text(id, "TT1") {
        "content group"
    } else if same_text(id, "TIT3") || same_text(id, "TT3") {
        "subtitle"
    } else if same_text(id, "TOPE") || same_text(id, "TOA") {
        "original artist"
    } else if same_text(id, "COMM") || same_text(id, "COM") {
        "comment"
    } else {
        "unknown field"
    }
}

} // verus!
