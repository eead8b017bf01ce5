//! ANSI SGR codes used for colouring the preview.
use vstd::prelude::*;
use crate::text::{esc, visible_len, is_closed, lemma_sgr};

verus! {

/// The SGR sequence `ESC [ body m`.
pub open spec fn sgr(body: Seq<char>) -> Seq<char> {
    seq![esc(), '['] + body + seq!['m']
}

/// reset
pub open spec fn reset_seq() -> Seq<char> {
    sgr(seq!['0'])
}

/// dim: borders, labels
pub open spec fn dim_seq() -> Seq<char> {
    sgr(seq!['2'])
}

/// bold: file name
pub open spec fn bold_seq() -> Seq<char> {
    sgr(seq!['1'])
}

/// green: title of the BEXT section
pub open spec fn green_seq() -> Seq<char> {
    sgr(seq!['9', '2'])
}

/// cyan: title of the SUMMARY section
pub open spec fn cyan_seq() -> Seq<char> {
    sgr(seq!['9', '6'])
}

/// yellow: title of the FORMAT section
pub open spec fn yellow_seq() -> Seq<char> {
    sgr(seq!['9', '3'])
}

/// blue: title of the AUDIO section
pub open spec fn blue_seq() -> Seq<char> {
    sgr(seq!['9', '4'])
}

/// magenta: title of the TAGS section
pub open spec fn magenta_seq() -> Seq<char> {
    sgr(seq!['9', '5'])
}

/// red: title of the iXML section
pub open spec fn red_seq() -> Seq<char> {
    sgr(seq!['9', '1'])
}

/// grey: N/A placeholders and empty sections
pub open spec fn grey_seq() -> Seq<char> {
    sgr(seq!['9', '0'])
}

/// white: entry values
pub open spec fn white_seq() -> Seq<char> {
    sgr(seq!['9', '7'])
}

/// orange: title of the LOUDNESS section
pub open spec fn orange_seq() -> Seq<char> {
    sgr(seq!['3', '8', ';', '5', ';', '2', '0', '8'])
}

/// purple: title of the WAVEFORM section
pub open spec fn purple_seq() -> Seq<char> {
    sgr(seq!['3', '8', ';', '5', ';', '1', '3', '5'])
}

/// blink: status placeholders
pub open spec fn blink_seq() -> Seq<char> {
    sgr(seq!['5'])
}

/// Every SGR sequence with a body free of `m` takes no columns and is closed.
pub proof fn lemma_sgr_invisible(body: Seq<char>)
    requires
        forall|i: int| 0 <= i < body.len() ==> body[i] != 'm',
    ensures
        visible_len(sgr(body)) == 0,
        is_closed(sgr(body)),
{
    lemma_sgr(body);
}

/// The codes used by the preview take no columns and leave nothing open.
pub proof fn lemma_codes_invisible()
    ensures
        visible_len(reset_seq()) == 0 && is_closed(reset_seq()),
        visible_len(dim_seq()) == 0 && is_closed(dim_seq()),
        visible_len(bold_seq()) == 0 && is_closed(bold_seq()),
        visible_len(green_seq()) == 0 && is_closed(green_seq()),
        visible_len(cyan_seq()) == 0 && is_closed(cyan_seq()),
        visible_len(yellow_seq()) == 0 && is_closed(yellow_seq()),
        visible_len(blue_seq()) == 0 && is_closed(blue_seq()),
        visible_len(magenta_seq()) == 0 && is_closed(magenta_seq()),
        visible_len(red_seq()) == 0 && is_closed(red_seq()),
        visible_len(grey_seq()) == 0 && is_closed(grey_seq()),
        visible_len(white_seq()) == 0 && is_closed(white_seq()),
        visible_len(orange_seq()) == 0 && is_closed(orange_seq()),
        visible_len(purple_seq()) == 0 && is_closed(purple_seq()),
        visible_len(blink_seq()) == 0 && is_closed(blink_seq()),
{
    lemma_sgr_invisible(seq!['0']);
    lemma_sgr_invisible(seq!['2']);
    lemma_sgr_invisible(seq!['1']);
    lemma_sgr_invisible(seq!['9', '2']);
    lemma_sgr_invisible(seq!['9', '6']);
    lemma_sgr_invisible(seq!['9', '3']);
    lemma_sgr_invisible(seq!['9', '4']);
    lemma_sgr_invisible(seq!['9', '5']);
    lemma_sgr_invisible(seq!['9', '1']);
    lemma_sgr_invisible(seq!['9', '0']);
    lemma_sgr_invisible(seq!['9', '7']);
    lemma_sgr_invisible(seq!['3', '8', ';', '5', ';', '2', '0', '8']);
    lemma_sgr_invisible(seq!['3', '8', ';', '5', ';', '1', '3', '5']);
    lemma_sgr_invisible(seq!['5']);
}

/// reset
pub fn reset() -> (s: &'static str)
    ensures
        s@ == reset_seq(),
{
    proof {
        reveal_strlit("\x1b[0m");
    }
    "\x1b[0m"
}

/// dim
pub fn dim() -> (s: &'static str)
    ensures
        s@ == dim_seq(),
{
    proof {
        reveal_strlit("\x1b[2m");
    }
    "\x1b[2m"
}

/// bold
pub fn bold() -> (s: &'static str)
    ensures
        s@ == bold_seq(),
{
    proof {
        reveal_strlit("\x1b[1m");
    }
    "\x1b[1m"
}

/// green
pub fn green() -> (s: &'static str)
    ensures
        s@ == green_seq(),
{
    proof {
        reveal_strlit("\x1b[92m");
    }
    "\x1b[92m"
}

/// cyan
pub fn cyan() -> (s: &'static str)
    ensures
        s@ == cyan_seq(),
{
    proof {
        reveal_strlit("\x1b[96m");
    }
    "\x1b[96m"
}

/// yellow
pub fn yellow() -> (s: &'static str)
    ensures
        s@ == yellow_seq(),
{
    proof {
        reveal_strlit("\x1b[93m");
    }
    "\x1b[93m"
}

/// blue
pub fn blue() -> (s: &'static str)
    ensures
        s@ == blue_seq(),
{
    proof {
        reveal_strlit("\x1b[94m");
    }
    "\x1b[94m"
}

/// magenta
pub fn magenta() -> (s: &'static str)
    ensures
        s@ == magenta_seq(),
{
    proof {
        reveal_strlit("\x1b[95m");
    }
    "\x1b[95m"
}

/// red
pub fn red() -> (s: &'static str)
    ensures
        s@ == red_seq(),
{
    proof {
        reveal_strlit("\x1b[91m");
    }
    "\x1b[91m"
}

/// grey
pub fn grey() -> (s: &'static str)
    ensures
        s@ == grey_seq(),
{
    proof {
        reveal_strlit("\x1b[90m");
    }
    "\x1b[90m"
}

/// white
pub fn white() -> (s: &'static str)
    ensures
        s@ == white_seq(),
{
    proof {
        reveal_strlit("\x1b[97m");
    }
    "\x1b[97m"
}

/// orange
pub fn orange() -> (s: &'static str)
    ensures
        s@ == orange_seq(),
{
    proof {
        reveal_strlit("\x1b[38;5;208m");
    }
    "\x1b[38;5;208m"
}

/// purple
pub fn purple() -> (s: &'static str)
    ensures
        s@ == purple_seq(),
{
    proof {
        reveal_strlit("\x1b[38;5;135m");
    }
    "\x1b[38;5;135m"
}

/// blink
pub fn blink() -> (s: &'static str)
    ensures
        s@ == blink_seq(),
{
    proof {
        reveal_strlit("\x1b[5m");
    }
    "\x1b[5m"
}

} // verus!
