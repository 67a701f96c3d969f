//! The writer of the configuration file, as text.
use vstd::prelude::*;

use crate::config_parse::ConfigView;
use crate::json_string::escape_json;
use crate::text::decimal;

verus! {

/// `true` or `false`.
pub open spec fn bool_text(b: bool) -> Seq<char> {
    if b {
        "true"@
    } else {
        "false"@
    }
}

/// One line of the `project_folders` object.
pub open spec fn folder_entry(p: (Seq<char>, Seq<char>)) -> Seq<char> {
    "    \""@ + escape_json(p.0) + "\": \""@ + escape_json(p.1) + "\""@
}

/// The lines of the `project_folders` object, separated by `,\n`.
pub open spec fn folder_lines(f: Seq<(Seq<char>, Seq<char>)>) -> Seq<char>
    decreases f.len(),
{
    if f.len() == 0 {
        Seq::empty()
    } else if f.len() == 1 {
        folder_entry(f[0])
    } else {
        folder_lines(f.drop_last()) + ",\n"@ + folder_entry(f.last())
    }
}

/// The `project_folders` value.
pub open spec fn folders_json(f: Seq<(Seq<char>, Seq<char>)>) -> Seq<char> {
    if f.len() == 0 {
        "{}"@
    } else {
        "{\n"@ + folder_lines(f) + "\n  }"@
    }
}

/// One line of the `recent_files` array.
pub open spec fn recent_entry(r: (Seq<char>, u64)) -> Seq<char> {
    "    { \"path\": \""@ + escape_json(r.0) + "\", \"opened_at\": "@ + decimal(r.1 as nat)
        + " }"@
}

/// The lines of the `recent_files` array, separated by `,\n`.
pub open spec fn recent_lines(f: Seq<(Seq<char>, u64)>) -> Seq<char>
    decreases f.len(),
{
    if f.len() == 0 {
        Seq::empty()
    } else if f.len() == 1 {
        recent_entry(f[0])
    } else {
        recent_lines(f.drop_last()) + ",\n"@ + recent_entry(f.last())
    }
}

/// The `recent_files` value.
pub open spec fn recent_json(f: Seq<(Seq<char>, u64)>) -> Seq<char> {
    if f.len() == 0 {
        "[]"@
    } else {
        "[\n"@ + recent_lines(f) + "\n  ]"@
    }
}

/// A line break.
pub open spec fn nl() -> Seq<char> {
    seq!['\n']
}

/// The opening lines of the file, through the `indent_with_tabs` field.
pub open spec fn json_part_a(c: ConfigView) -> Seq<char> {
    "// OGEdit Configuration"@ + nl() + "// Edit this file to customize your settings."@ + nl()
        + "// Lines starting with // are comments and will be ignored."@ + nl() + "{"@ + nl()
        + "  // Enable word wrap for long lines (true/false, default: false)"@ + nl()
        + "  \"word_wrap\": "@ + bool_text(c.word_wrap) + ","@ + nl() + nl()
        + "  // Use tabs for indentation instead of spaces (true/false, default: false)"@ + nl()
        + "  \"indent_with_tabs\": "@ + bool_text(c.indent_with_tabs) + ","@ + nl()
}

/// The lines for `tab_size`, `newline_crlf` and `line_numbers`.
pub open spec fn json_part_b(c: ConfigView, windows: bool) -> Seq<char> {
    nl() + "  // Number of spaces per tab/indentation level (1-8, default: 4)"@ + nl()
        + "  \"tab_size\": "@ + decimal(c.tab_size as nat) + ","@ + nl() + nl()
        + "  // Use Windows line endings CRLF (true) or Unix LF (false, default: "@
        + bool_text(windows) + ")"@ + nl()
        + "  \"newline_crlf\": "@ + bool_text(c.newline_crlf) + ","@ + nl() + nl()
        + "  // Show line numbers in left margin (true/false, default: true)"@ + nl()
        + "  \"line_numbers\": "@ + bool_text(c.line_numbers) + ","@ + nl()
}

/// The lines for `line_highlight`, `insert_final_newline` and `ruler_column`.
pub open spec fn json_part_c(c: ConfigView, windows: bool) -> Seq<char> {
    nl() + "  // Highlight the current line (true/false, default: true)"@ + nl()
        + "  \"line_highlight\": "@ + bool_text(c.line_highlight) + ","@ + nl() + nl()
        + "  // Add newline at end of file when saving (true/false, default: "@ + bool_text(!windows)
        + ")"@ + nl() + "  \"insert_final_newline\": "@ + bool_text(c.insert_final_newline) + ","@
        + nl() + nl()
        + "  // Show vertical ruler at column, 0 to disable (0-255, default: 0)"@ + nl()
        + "  \"ruler_column\": "@ + decimal(c.ruler_column as nat) + ","@ + nl()
}

/// The closing lines: the two lists and the final brace.
pub open spec fn json_part_d(c: ConfigView) -> Seq<char> {
    nl() + "  // Per-project last-used save folder (auto-managed, do not edit)"@ + nl()
        + "  \"project_folders\": "@ + folders_json(c.project_folders) + ","@ + nl() + nl()
        + "  // Recently opened files (auto-managed, do not edit)"@ + nl() + "  \"recent_files\": "@
        + recent_json(c.recent_files) + nl() + "}"@ + nl()
}

/// The configuration file written for `c`; `windows` selects the defaults
/// named in two of the comments.
pub open spec fn config_json(c: ConfigView, windows: bool) -> Seq<char> {
    json_part_a(c) + json_part_b(c, windows) + json_part_c(c, windows) + json_part_d(c)
}

} // verus!
