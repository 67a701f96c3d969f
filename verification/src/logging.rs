//! The text of the debug log: how each user event is written as one log
//! message. Writing the messages to the log file is left to the caller.
use vstd::prelude::*;

use crate::content::{
    content_bytes_ok, content_bytes_text, content_ok, content_text, format_content,
    format_content_bytes,
};
use crate::goto::Point;
use crate::text::{chars_of, decimal, push_decimal, push_str, string_of};
use crate::utf8_len::utf8_len;

verus! {

/// A control character (Unicode general category `Cc`).
pub open spec fn is_control(c: char) -> bool {
    let u = c as u32;
    u <= 0x1f || (0x7f <= u <= 0x9f)
}

/// The lower-case hexadecimal digit for `d < 16`.
pub open spec fn hex_digit(d: nat) -> char {
    if d < 10 {
        (('0' as int) + d) as char
    } else {
        (('a' as int) + d - 10) as char
    }
}

/// `n < 256` as two lower-case hexadecimal digits.
pub open spec fn hex2(n: nat) -> Seq<char> {
    seq![hex_digit(n / 16), hex_digit(n % 16)]
}

/// How one character is written in a log message.
pub open spec fn log_escape_char(c: char) -> Seq<char> {
    if c == '\n' {
        seq!['\\', 'n']
    } else if c == '\r' {
        Seq::empty()
    } else if c == '\t' {
        seq!['\\', 't']
    } else if c == '\\' {
        seq!['\\', '\\']
    } else if c == '"' {
        seq!['\\', '"']
    } else if is_control(c) {
        seq!['\\', 'x'] + hex2((c as u32) as nat)
    } else {
        seq![c]
    }
}

/// Text escaped for a log message; carriage returns are dropped.
pub open spec fn escape_text_spec(s: Seq<char>) -> Seq<char>
    decreases s.len(),
{
    if s.len() == 0 {
        Seq::empty()
    } else {
        escape_text_spec(s.drop_last()) + log_escape_char(s.last())
    }
}

pub(crate) fn hex_digit_exec(d: u32) -> (c: char)
    requires
        d < 16,
    ensures
        c == hex_digit(d as nat),
{
    if d == 0 {
        '0'
    } else if d == 1 {
        '1'
    } else if d == 2 {
        '2'
    } else if d == 3 {
        '3'
    } else if d == 4 {
        '4'
    } else if d == 5 {
        '5'
    } else if d == 6 {
        '6'
    } else if d == 7 {
        '7'
    } else if d == 8 {
        '8'
    } else if d == 9 {
        '9'
    } else if d == 10 {
        'a'
    } else if d == 11 {
        'b'
    } else if d == 12 {
        'c'
    } else if d == 13 {
        'd'
    } else if d == 14 {
        'e'
    } else {
        'f'
    }
}

/// Appends `hex2(n)`.
pub fn push_hex2(out: &mut Vec<char>, n: u32)
    requires
        n < 256,
    ensures
        final(out)@ == old(out)@ + hex2(n as nat),
{
    let hi = hex_digit_exec(n / 16);
    let lo = hex_digit_exec(n % 16);
    out.push(hi);
    out.push(lo);
    assert(final(out)@ =~= old(out)@ + hex2(n as nat));
}

/// Appends `escape_text_spec(s)`.
pub fn escape_text_into(out: &mut Vec<char>, s: &[char])
    ensures
        final(out)@ == old(out)@ + escape_text_spec(s@),
{
    let mut i: usize = 0;
    while i < s.len()
        invariant
            i <= s@.len(),
            out@ == old(out)@ + escape_text_spec(s@.take(i as int)),
        decreases s.len() - i,
    {
        let c = s[i];
        let ghost before = out@;
        let u = c as u32;
        if c == '\n' {
            out.push('\\');
            out.push('n');
        } else if c == '\r' {
        } else if c == '\t' {
            out.push('\\');
            out.push('t');
        } else if c == '\\' {
            out.push('\\');
            out.push('\\');
        } else if c == '"' {
            out.push('\\');
            out.push('"');
        } else if u <= 0x1f || (0x7f <= u && u <= 0x9f) {
            out.push('\\');
            out.push('x');
            push_hex2(out, u);
        } else {
            out.push(c);
        }
        assert(out@ =~= before + log_escape_char(c));
        assert(s@.take(i + 1).drop_last() =~= s@.take(i as int));
        i += 1;
        assert(out@ =~= old(out)@ + escape_text_spec(s@.take(i as int)));
    }
    assert(s@.take(i as int) =~= s@);
}

/// Text escaped for a log message.
pub fn escape_text(text: &str) -> (r: String)
    ensures
        r@ == escape_text_spec(text@),
{
    let v = chars_of(text);
    let mut out: Vec<char> = Vec::new();
    escape_text_into(&mut out, v.as_slice());
    assert(out@ =~= escape_text_spec(text@));
    string_of(out.as_slice())
}

/// Escaped text holds no control character, line breaks included: a
/// message built from it stays on one line of the log.
pub proof fn lemma_escaped_has_no_control(s: Seq<char>)
    ensures
        forall|i: int|
            0 <= i < escape_text_spec(s).len() ==> !is_control(#[trigger] escape_text_spec(s)[i]),
    decreases s.len(),
{
    if s.len() > 0 {
        lemma_escaped_has_no_control(s.drop_last());
        let a = escape_text_spec(s.drop_last());
        let c = s.last();
        let e = log_escape_char(c);
        if is_control(c) && c != '\n' && c != '\r' && c != '\t' {
            let n = (c as u32) as nat;
            assert(n / 16 < 16 && n % 16 < 16);
            assert(!is_control(hex_digit(n / 16)) && !is_control(hex_digit(n % 16)));
        }
        assert forall|i: int| 0 <= i < e.len() implies !is_control(#[trigger] e[i]) by {}
        assert forall|i: int| 0 <= i < (a + e).len() implies !is_control(#[trigger] (a + e)[i]) by {
            if i >= a.len() {
                assert((a + e)[i] == e[i - a.len()]);
            }
        }
    }
}

/// A message made of `head`, then `s` escaped, then `tail`.
fn escaped_between(head: &str, s: &str, tail: &str) -> (r: String)
    ensures
        r@ == head@ + escape_text_spec(s@) + tail@,
{
    let mut out: Vec<char> = Vec::new();
    push_str(&mut out, head);
    let v = chars_of(s);
    escape_text_into(&mut out, v.as_slice());
    push_str(&mut out, tail);
    assert(out@ =~= head@ + escape_text_spec(s@) + tail@);
    string_of(out.as_slice())
}

/// A message made of `head`, then `s` as it is, then `tail`.
fn plain_between(head: &str, s: &str, tail: &str) -> (r: String)
    ensures
        r@ == head@ + s@ + tail@,
{
    let mut out: Vec<char> = Vec::new();
    push_str(&mut out, head);
    push_str(&mut out, s);
    push_str(&mut out, tail);
    assert(out@ =~= head@ + s@ + tail@);
    string_of(out.as_slice())
}

fn literal(s: &str) -> (r: String)
    ensures
        r@ == s@,
{
    String::from_str(s)
}

/// The message for the application exiting.
pub fn log_app_exit() -> (r: String)
    ensures
        r@ == "=== Application exiting ==="@,
{
    literal("=== Application exiting ===")
}

/// The message for a cleared selection.
pub fn log_selection_clear() -> (r: String)
    ensures
        r@ == "SELECTION_CLEAR"@,
{
    literal("SELECTION_CLEAR")
}

/// The message for an opened menu.
pub fn log_menu_open(menu_name: &str) -> (r: String)
    ensures
        r@ == "MENU_OPEN: \""@ + menu_name@ + "\""@,
{
    plain_between("MENU_OPEN: \"", menu_name, "\"")
}

/// The message for a clicked menu item.
pub fn log_menu_click(menu_path: &str) -> (r: String)
    ensures
        r@ == "MENU_CLICK: \""@ + menu_path@ + "\""@,
{
    plain_between("MENU_CLICK: \"", menu_path, "\"")
}

/// The message for a toggled menu checkbox.
pub fn log_menu_checkbox(menu_path: &str, checked: bool) -> (r: String)
    ensures
        r@ == "MENU_CHECKBOX: \""@ + menu_path@ + "\" -> "@ + (if checked {
            "checked"@
        } else {
            "unchecked"@
        }),
{
    let state = if checked {
        "checked"
    } else {
        "unchecked"
    };
    let mut out: Vec<char> = Vec::new();
    push_str(&mut out, "MENU_CHECKBOX: \"");
    push_str(&mut out, menu_path);
    push_str(&mut out, "\" -> ");
    push_str(&mut out, state);
    assert(out@ =~= "MENU_CHECKBOX: \""@ + menu_path@ + "\" -> "@ + state@);
    string_of(out.as_slice())
}

/// The message for an opened file.
pub fn log_file_open(path: &str) -> (r: String)
    ensures
        r@ == "FILE_OPEN: \""@ + escape_text_spec(path@) + "\""@,
{
    escaped_between("FILE_OPEN: \"", path, "\"")
}

/// The message for a saved file.
pub fn log_file_save(path: &str) -> (r: String)
    ensures
        r@ == "FILE_SAVE: \""@ + escape_text_spec(path@) + "\""@,
{
    escaped_between("FILE_SAVE: \"", path, "\"")
}

/// The message for a new file.
pub fn log_file_new(name: &str) -> (r: String)
    ensures
        r@ == "FILE_NEW: \""@ + escape_text_spec(name@) + "\""@,
{
    escaped_between("FILE_NEW: \"", name, "\"")
}

/// The message for a closed file; `was_dirty` notes discarded changes.
pub open spec fn file_close_text(name: Seq<char>, was_dirty: bool) -> Seq<char> {
    "FILE_CLOSE: \""@ + escape_text_spec(name) + "\""@ + (if was_dirty {
        " (unsaved changes discarded)"@
    } else {
        ""@
    })
}

/// The message for a closed file; `was_dirty` notes discarded changes.
pub fn log_file_close(name: &str, was_dirty: bool) -> (r: String)
    ensures
        r@ == file_close_text(name@, was_dirty),
{
    let dirty_str = if was_dirty {
        " (unsaved changes discarded)"
    } else {
        ""
    };
    let mut out: Vec<char> = Vec::new();
    push_str(&mut out, "FILE_CLOSE: \"");
    let v = chars_of(name);
    escape_text_into(&mut out, v.as_slice());
    push_str(&mut out, "\"");
    push_str(&mut out, dirty_str);
    assert(out@ =~= "FILE_CLOSE: \""@ + escape_text_spec(name@) + "\""@ + dirty_str@);
    string_of(out.as_slice())
}

/// The message for a search.
pub fn log_search(needle: &str, found: bool) -> (r: String)
    ensures
        r@ == "SEARCH: \""@ + escape_text_spec(needle@) + "\" -> "@ + (if found {
            "found"@
        } else {
            "not found"@
        }),
{
    let result = if found {
        "found"
    } else {
        "not found"
    };
    let mut out: Vec<char> = Vec::new();
    push_str(&mut out, "SEARCH: \"");
    let v = chars_of(needle);
    escape_text_into(&mut out, v.as_slice());
    push_str(&mut out, "\" -> ");
    push_str(&mut out, result);
    assert(out@ =~= "SEARCH: \""@ + escape_text_spec(needle@) + "\" -> "@ + result@);
    string_of(out.as_slice())
}

/// The message for a replacement of `count` occurrences.
pub fn log_replace(needle: &str, replacement: &str, count: usize) -> (r: String)
    ensures
        r@ == "REPLACE: \""@ + escape_text_spec(needle@) + "\" -> \""@ + escape_text_spec(
            replacement@,
        ) + "\" ("@ + decimal(count as nat) + " occurrences)"@,
{
    let mut out: Vec<char> = Vec::new();
    push_str(&mut out, "REPLACE: \"");
    let v = chars_of(needle);
    escape_text_into(&mut out, v.as_slice());
    push_str(&mut out, "\" -> \"");
    let w = chars_of(replacement);
    escape_text_into(&mut out, w.as_slice());
    push_str(&mut out, "\" (");
    push_decimal(&mut out, count as u64);
    push_str(&mut out, " occurrences)");
    assert(out@ =~= "REPLACE: \""@ + escape_text_spec(needle@) + "\" -> \""@ + escape_text_spec(
        replacement@,
    ) + "\" ("@ + decimal(count as nat) + " occurrences)"@);
    string_of(out.as_slice())
}

/// The message for an undo.
pub fn log_undo() -> (r: String)
    ensures
        r@ == "UNDO"@,
{
    literal("UNDO")
}

/// The message for a redo.
pub fn log_redo() -> (r: String)
    ensures
        r@ == "REDO"@,
{
    literal("REDO")
}

/// The message for toggling word wrap.
pub fn log_word_wrap_toggle(enabled: bool) -> (r: String)
    ensures
        r@ == "WORD_WRAP: "@ + (if enabled {
            "enabled"@
        } else {
            "disabled"@
        }),
{
    let state = if enabled {
        "enabled"
    } else {
        "disabled"
    };
    let mut out: Vec<char> = Vec::new();
    push_str(&mut out, "WORD_WRAP: ");
    push_str(&mut out, state);
    string_of(out.as_slice())
}

/// The message for an encoding change.
pub fn log_encoding_change(from: &str, to: &str) -> (r: String)
    ensures
        r@ == "ENCODING: \""@ + from@ + "\" -> \""@ + to@ + "\""@,
{
    let mut out: Vec<char> = Vec::new();
    push_str(&mut out, "ENCODING: \"");
    push_str(&mut out, from);
    push_str(&mut out, "\" -> \"");
    push_str(&mut out, to);
    push_str(&mut out, "\"");
    assert(out@ =~= "ENCODING: \""@ + from@ + "\" -> \""@ + to@ + "\""@);
    string_of(out.as_slice())
}

/// The message for a duplicated line.
pub fn log_duplicate_line() -> (r: String)
    ensures
        r@ == "DUPLICATE_LINE"@,
{
    literal("DUPLICATE_LINE")
}

/// The message for selecting everything.
pub fn log_select_all() -> (r: String)
    ensures
        r@ == "SELECT_ALL"@,
{
    literal("SELECT_ALL")
}

/// The message for an opened dialog.
pub fn log_dialog_open(dialog_name: &str) -> (r: String)
    ensures
        r@ == "DIALOG_OPEN: \""@ + dialog_name@ + "\""@,
{
    plain_between("DIALOG_OPEN: \"", dialog_name, "\"")
}

/// The message for a closed dialog.
pub fn log_dialog_close(dialog_name: &str, result: &str) -> (r: String)
    ensures
        r@ == "DIALOG_CLOSE: \""@ + dialog_name@ + "\" -> "@ + result@,
{
    let mut out: Vec<char> = Vec::new();
    push_str(&mut out, "DIALOG_CLOSE: \"");
    push_str(&mut out, dialog_name);
    push_str(&mut out, "\" -> ");
    push_str(&mut out, result);
    assert(out@ =~= "DIALOG_CLOSE: \""@ + dialog_name@ + "\" -> "@ + result@);
    string_of(out.as_slice())
}

/// The message for a generic action.
pub fn log_action(action: &str) -> (r: String)
    ensures
        r@ == "ACTION: "@ + action@,
{
    let mut out: Vec<char> = Vec::new();
    push_str(&mut out, "ACTION: ");
    push_str(&mut out, action);
    string_of(out.as_slice())
}

/// The message for an error.
pub fn log_error(error: &str) -> (r: String)
    ensures
        r@ == "ERROR: "@ + error@,
{
    let mut out: Vec<char> = Vec::new();
    push_str(&mut out, "ERROR: ");
    push_str(&mut out, error);
    string_of(out.as_slice())
}

/// `head` followed by `body`.
fn joined(head: &str, body: &str) -> (r: String)
    ensures
        r@ == head@ + body@,
{
    let mut out: Vec<char> = Vec::new();
    push_str(&mut out, head);
    push_str(&mut out, body);
    string_of(out.as_slice())
}

/// The message for text the user typed.
pub fn log_text_input(text: &str) -> (r: String)
    requires
        utf8_len(text@) < usize::MAX,
        content_ok(text@),
    ensures
        r@ == "TEXT_INPUT: "@ + content_text(text@),
{
    let formatted = format_content(text);
    joined("TEXT_INPUT: ", formatted.as_str())
}

/// The message for pasted text.
pub fn log_paste(text: &[u8]) -> (r: String)
    requires
        text@.len() < usize::MAX,
        content_bytes_ok(text@),
    ensures
        r@ == "PASTE: "@ + content_bytes_text(text@),
{
    let formatted = format_content_bytes(text);
    joined("PASTE: ", formatted.as_str())
}

/// The message for deleted text and how it was deleted.
pub fn log_delete(deleted_text: &str, method: &str) -> (r: String)
    requires
        utf8_len(deleted_text@) < usize::MAX,
        content_ok(deleted_text@),
    ensures
        r@ == "DELETE: "@ + content_text(deleted_text@) + " ["@ + method@ + "]"@,
{
    let formatted = format_content(deleted_text);
    let mut out: Vec<char> = Vec::new();
    push_str(&mut out, "DELETE: ");
    push_str(&mut out, formatted.as_str());
    push_str(&mut out, " [");
    push_str(&mut out, method);
    push_str(&mut out, "]");
    assert(out@ =~= "DELETE: "@ + content_text(deleted_text@) + " ["@ + method@ + "]"@);
    string_of(out.as_slice())
}

/// The message for cut text.
pub fn log_cut(text: &[u8]) -> (r: String)
    requires
        text@.len() < usize::MAX,
        content_bytes_ok(text@),
    ensures
        r@ == "CUT: "@ + content_bytes_text(text@),
{
    let formatted = format_content_bytes(text);
    joined("CUT: ", formatted.as_str())
}

/// The message for copied text.
pub fn log_copy(text: &[u8]) -> (r: String)
    requires
        text@.len() < usize::MAX,
        content_bytes_ok(text@),
    ensures
        r@ == "COPY: "@ + content_bytes_text(text@),
{
    let formatted = format_content_bytes(text);
    joined("COPY: ", formatted.as_str())
}

/// The message for a periodic snapshot of a document's content.
pub fn log_content_snapshot(content: &str, doc_name: &str) -> (r: String)
    requires
        utf8_len(content@) < usize::MAX,
        content_ok(content@),
    ensures
        r@ == "CONTENT_SNAPSHOT: doc=\""@ + escape_text_spec(doc_name@) + "\" "@ + content_text(
            content@,
        ),
{
    let formatted = format_content(content);
    let mut out: Vec<char> = Vec::new();
    push_str(&mut out, "CONTENT_SNAPSHOT: doc=\"");
    let v = chars_of(doc_name);
    escape_text_into(&mut out, v.as_slice());
    push_str(&mut out, "\" ");
    push_str(&mut out, formatted.as_str());
    assert(out@ =~= "CONTENT_SNAPSHOT: doc=\""@ + escape_text_spec(doc_name@) + "\" "@
        + content_text(content@));
    string_of(out.as_slice())
}

/// `n` in decimal, with a minus sign when negative.
pub open spec fn signed_decimal(n: int) -> Seq<char> {
    if n < 0 {
        seq!['-'] + decimal((-n) as nat)
    } else {
        decimal(n as nat)
    }
}

/// Appends `signed_decimal(n)`.
pub fn push_signed(out: &mut Vec<char>, n: isize)
    ensures
        final(out)@ == old(out)@ + signed_decimal(n as int),
{
    if n < 0 {
        out.push('-');
        let m: u64 = (-(n as i128)) as u64;
        push_decimal(out, m);
        assert(final(out)@ =~= old(out)@ + signed_decimal(n as int));
    } else {
        push_decimal(out, n as u64);
    }
}

/// A position as the log writes it, counted from 1: `Ln {line}, Col {column}`.
pub open spec fn line_col(p: Point) -> Seq<char> {
    "Ln "@ + signed_decimal(p.y + 1) + ", Col "@ + signed_decimal(p.x + 1)
}

fn push_line_col(out: &mut Vec<char>, p: Point)
    requires
        p.x < isize::MAX,
        p.y < isize::MAX,
    ensures
        final(out)@ == old(out)@ + line_col(p),
{
    push_str(out, "Ln ");
    push_signed(out, p.y + 1);
    push_str(out, ", Col ");
    push_signed(out, p.x + 1);
    assert(final(out)@ =~= old(out)@ + line_col(p));
}

/// The message for a cursor move between two positions and offsets.
pub fn log_cursor_move(from: Point, to: Point, from_offset: usize, to_offset: usize, method: &str) -> (r:
    String)
    requires
        from.x < isize::MAX && from.y < isize::MAX,
        to.x < isize::MAX && to.y < isize::MAX,
    ensures
        r@ == "CURSOR_MOVE: "@ + line_col(from) + " (offset "@ + decimal(from_offset as nat)
            + ") -> "@ + line_col(to) + " (offset "@ + decimal(to_offset as nat) + ") ["@ + method@
            + "]"@,
{
    let mut out: Vec<char> = Vec::new();
    push_str(&mut out, "CURSOR_MOVE: ");
    push_line_col(&mut out, from);
    push_str(&mut out, " (offset ");
    push_decimal(&mut out, from_offset as u64);
    push_str(&mut out, ") -> ");
    push_line_col(&mut out, to);
    push_str(&mut out, " (offset ");
    push_decimal(&mut out, to_offset as u64);
    push_str(&mut out, ") [");
    push_str(&mut out, method);
    push_str(&mut out, "]");
    assert(out@ =~= "CURSOR_MOVE: "@ + line_col(from) + " (offset "@ + decimal(from_offset as nat)
        + ") -> "@ + line_col(to) + " (offset "@ + decimal(to_offset as nat) + ") ["@ + method@
        + "]"@);
    string_of(out.as_slice())
}

/// A selected range as the log writes it.
pub open spec fn range_info(start: Point, end: Point, start_offset: usize, end_offset: usize) -> Seq<
    char,
> {
    line_col(start) + " (offset "@ + decimal(start_offset as nat) + ") to "@ + line_col(end)
        + " (offset "@ + decimal(end_offset as nat) + ")"@
}

/// The message for a selection, with its content when there is one.
pub fn log_selection(
    start: Point,
    end: Point,
    start_offset: usize,
    end_offset: usize,
    content: Option<&[u8]>,
) -> (r: String)
    requires
        start.x < isize::MAX && start.y < isize::MAX,
        end.x < isize::MAX && end.y < isize::MAX,
        content matches Some(b) ==> b@.len() < usize::MAX && content_bytes_ok(b@),
    ensures
        r@ == "SELECTION: "@ + range_info(start, end, start_offset, end_offset) + match content {
            Some(b) => " content="@ + content_bytes_text(b@),
            None => Seq::empty(),
        },
{
    let mut out: Vec<char> = Vec::new();
    push_str(&mut out, "SELECTION: ");
    push_line_col(&mut out, start);
    push_str(&mut out, " (offset ");
    push_decimal(&mut out, start_offset as u64);
    push_str(&mut out, ") to ");
    push_line_col(&mut out, end);
    push_str(&mut out, " (offset ");
    push_decimal(&mut out, end_offset as u64);
    push_str(&mut out, ")");
    let ghost head = out@;
    assert(head =~= "SELECTION: "@ + range_info(start, end, start_offset, end_offset));
    match content {
        Some(bytes) => {
            let formatted = format_content_bytes(bytes);
            push_str(&mut out, " content=");
            push_str(&mut out, formatted.as_str());
            assert(out@ =~= head + (" content="@ + content_bytes_text(bytes@)));
        },
        None => {
            assert(out@ =~= head + Seq::<char>::empty());
        },
    }
    string_of(out.as_slice())
}

/// The message for a "Go to line" jump.
pub fn log_goto(target: Point) -> (r: String)
    requires
        target.x < isize::MAX && target.y < isize::MAX,
    ensures
        r@ == "GOTO: line "@ + signed_decimal(target.y + 1) + ", column "@ + signed_decimal(
            target.x + 1,
        ),
{
    let mut out: Vec<char> = Vec::new();
    push_str(&mut out, "GOTO: line ");
    push_signed(&mut out, target.y + 1);
    push_str(&mut out, ", column ");
    push_signed(&mut out, target.x + 1);
    assert(out@ =~= "GOTO: line "@ + signed_decimal(target.y + 1) + ", column "@ + signed_decimal(
        target.x + 1,
    ));
    string_of(out.as_slice())
}

/// A screen position as the log writes it: `({x},{y})`.
pub open spec fn screen_pos(p: Point) -> Seq<char> {
    "("@ + signed_decimal(p.x as int) + ","@ + signed_decimal(p.y as int) + ")"@
}

fn push_screen_pos(out: &mut Vec<char>, p: Point)
    ensures
        final(out)@ == old(out)@ + screen_pos(p),
{
    push_str(out, "(");
    push_signed(out, p.x);
    push_str(out, ",");
    push_signed(out, p.y);
    push_str(out, ")");
    assert(final(out)@ =~= old(out)@ + screen_pos(p));
}

/// The message for a mouse click: where, which button, and what it hit.
pub fn log_mouse_click(pos: Point, button: &str, target: &str) -> (r: String)
    ensures
        r@ == "MOUSE_CLICK: "@ + screen_pos(pos) + " ["@ + button@ + "] -> "@ + target@,
{
    let mut out: Vec<char> = Vec::new();
    push_str(&mut out, "MOUSE_CLICK: ");
    push_screen_pos(&mut out, pos);
    push_str(&mut out, " [");
    push_str(&mut out, button);
    push_str(&mut out, "] -> ");
    push_str(&mut out, target);
    assert(out@ =~= "MOUSE_CLICK: "@ + screen_pos(pos) + " ["@ + button@ + "] -> "@ + target@);
    string_of(out.as_slice())
}

/// The message for a mouse drag.
pub fn log_mouse_drag(from: Point, to: Point) -> (r: String)
    ensures
        r@ == "MOUSE_DRAG: "@ + screen_pos(from) + " -> "@ + screen_pos(to),
{
    let mut out: Vec<char> = Vec::new();
    push_str(&mut out, "MOUSE_DRAG: ");
    push_screen_pos(&mut out, from);
    push_str(&mut out, " -> ");
    push_screen_pos(&mut out, to);
    assert(out@ =~= "MOUSE_DRAG: "@ + screen_pos(from) + " -> "@ + screen_pos(to));
    string_of(out.as_slice())
}

/// The messages for the application's start: a banner, and the session's
/// working directory and process id.
pub fn log_app_start(cwd: &str, pid: u32) -> (r: (String, String))
    ensures
        r.0@ == "=== Application started ==="@,
        r.1@ == "SESSION: cwd=\""@ + cwd@ + "\" pid="@ + decimal(pid as nat),
{
    let mut out: Vec<char> = Vec::new();
    push_str(&mut out, "SESSION: cwd=\"");
    push_str(&mut out, cwd);
    push_str(&mut out, "\" pid=");
    push_decimal(&mut out, pid as u64);
    assert(out@ =~= "SESSION: cwd=\""@ + cwd@ + "\" pid="@ + decimal(pid as nat));
    (literal("=== Application started ==="), string_of(out.as_slice()))
}

} // verus!
