//! The texts and timing of the status bar: the newline and location
//! buttons, the file name with the count of other open documents, the log
//! messages of its pickers, and how often the active file is checked for
//! changes on disk.
use vstd::prelude::*;

use crate::goto::Point;
use crate::logging::{push_signed, signed_decimal};
use crate::text::{decimal, push_decimal, push_str, string_of};

verus! {

/// The label of the newline button.
pub fn newline_label(is_crlf: bool) -> (r: &'static str)
    ensures
        r@ == (if is_crlf {
            "CRLF"@
        } else {
            "LF"@
        }),
{
    if is_crlf {
        "CRLF"
    } else {
        "LF"
    }
}

/// The log message of a click on the newline button, which switches to the
/// other kind.
pub fn newline_change_message(is_crlf: bool) -> (r: String)
    ensures
        r@ == "NEWLINE_CHANGE: "@ + (if is_crlf {
            "CRLF"@
        } else {
            "LF"@
        }) + " -> "@ + (if is_crlf {
            "LF"@
        } else {
            "CRLF"@
        }),
{
    let mut out: Vec<char> = Vec::new();
    push_str(&mut out, "NEWLINE_CHANGE: ");
    push_str(&mut out, newline_label(is_crlf));
    push_str(&mut out, " -> ");
    push_str(&mut out, newline_label(!is_crlf));
    string_of(out.as_slice())
}

/// The cursor's location as the status bar shows it: `line:column`,
/// counted from 1.
pub fn location_label(pos: Point) -> (r: String)
    requires
        pos.x < isize::MAX,
        pos.y < isize::MAX,
    ensures
        r@ == signed_decimal(pos.y + 1) + ":"@ + signed_decimal(pos.x + 1),
{
    let mut out: Vec<char> = Vec::new();
    push_signed(&mut out, pos.y + 1);
    push_str(&mut out, ":");
    push_signed(&mut out, pos.x + 1);
    string_of(out.as_slice())
}

/// The file name button's label: the active document's name, followed by
/// `+ n` when `n` other documents are open.
pub fn filename_label(filename: &str, total: usize) -> (r: String)
    ensures
        r@ == if total > 1 {
            filename@ + " + "@ + decimal((total - 1) as nat)
        } else {
            filename@
        },
{
    let mut out: Vec<char> = Vec::new();
    push_str(&mut out, filename);
    if total > 1 {
        push_str(&mut out, " + ");
        push_decimal(&mut out, (total - 1) as u64);
    }
    string_of(out.as_slice())
}

/// The log message of a change of the tab width.
pub fn tab_width_message(old_width: isize, new_width: u8) -> (r: String)
    ensures
        r@ == "TAB_WIDTH: "@ + signed_decimal(old_width as int) + " -> "@ + decimal(new_width as nat),
{
    let mut out: Vec<char> = Vec::new();
    push_str(&mut out, "TAB_WIDTH: ");
    push_signed(&mut out, old_width);
    push_str(&mut out, " -> ");
    push_decimal(&mut out, new_width as u64);
    string_of(out.as_slice())
}

/// How many frames pass between two checks of the active file on disk
/// (about a second).
pub open spec fn frames_per_check() -> nat {
    60
}

/// Counts one frame; returns whether the active file is checked for
/// changes on disk in this frame, which restarts the count.
pub fn file_check_tick(counter: &mut u32) -> (r: bool)
    requires
        *old(counter) < u32::MAX,
    ensures
        r == (*old(counter) + 1 >= frames_per_check()),
        *final(counter) == if r {
            0
        } else {
            *old(counter) + 1
        },
{
    *counter = *counter + 1;
    if *counter >= 60 {
        *counter = 0;
        true
    } else {
        false
    }
}

} // verus!
