//! The whole configuration file reads back: once its comment lines are
//! dropped and its ends trimmed, what `Config::to_json` writes is the body
//! of fields that reads back as the configuration.
use vstd::prelude::*;

use crate::config_laws::{
    config_body, field_sep, field_text, fields_sep, keepable, lemma_body_reads,
    lemma_strip_concat, lemma_strip_line, plain_line, simple_fields,
};
use crate::config_parse::{is_comment_line, keep_line, parse_config, strip_comments, ConfigView};
use crate::config_write::{
    bool_text, folder_entry, folder_lines, folders_json, json_part_a, json_part_b, json_part_c,
    config_json, json_part_d, nl, recent_entry, recent_json, recent_lines,
};
use crate::escaped::lemma_escape_json_chars;
use crate::json_string::escape_json;
use crate::escaped::quoted;
use crate::text::{
    decimal, is_digit, is_ws, lemma_decimal_digits, skip_ws, skip_ws_back, starts_with, trim,
    trim_end, trim_start,
};

verus! {

/// Text with no line break and no carriage return.
#[verifier::opaque]
pub open spec fn one_line(s: Seq<char>) -> bool {
    forall|i: int| 0 <= i < s.len() ==> s[i] != '\n' && s[i] != '\r'
}

proof fn lemma_one_line_concat(a: Seq<char>, b: Seq<char>)
    requires
        one_line(a),
        one_line(b),
    ensures
        one_line(a + b),
{
    reveal(one_line);
    assert forall|i: int| 0 <= i < (a + b).len() implies (a + b)[i] != '\n' && (a + b)[i]
        != '\r' by {
        if i >= a.len() {
            assert((a + b)[i] == b[i - a.len()]);
        }
    }
}

proof fn lemma_skip_spaces(l: Seq<char>, i: int, k: int)
    requires
        0 <= i <= k < l.len(),
        forall|m: int| i <= m < k ==> l[m] == ' ',
        !is_ws(l[k]),
    ensures
        skip_ws(l, i) == k,
    decreases k - i,
{
    if i < k {
        lemma_skip_spaces(l, i + 1, k);
    }
}

/// A line whose first non-blank characters, after `k` spaces, are `//`.
proof fn lemma_comment_after(l: Seq<char>, k: int)
    requires
        0 <= k,
        k + 2 <= l.len(),
        forall|m: int| 0 <= m < k ==> l[m] == ' ',
        l[k] == '/',
        l[k + 1] == '/',
    ensures
        is_comment_line(l),
{
    lemma_skip_spaces(l, 0, k);
    let t = trim_start(l);
    assert(t.subrange(0, 2) =~= seq!['/', '/']);
}

/// A line whose first non-blank character, after `k` spaces, is not `/`.
proof fn lemma_code_after(l: Seq<char>, k: int)
    requires
        0 <= k < l.len(),
        forall|m: int| 0 <= m < k ==> l[m] == ' ',
        !is_ws(l[k]),
        l[k] != '/',
    ensures
        !is_comment_line(l),
{
    lemma_skip_spaces(l, 0, k);
    let t = trim_start(l);
    if starts_with(t, seq!['/', '/']) {
        assert(t.subrange(0, 2)[0] == t[0]);
    }
}

proof fn lemma_empty_line()
    ensures
        !is_comment_line(Seq::<char>::empty()),
        one_line(Seq::<char>::empty()),
{
    reveal(one_line);
    assert(skip_ws(Seq::<char>::empty(), 0) == 0);
}

/// The values of the first eight fields are single lines.
proof fn lemma_values_one_line()
    ensures
        forall|b: bool| #[trigger] one_line(bool_text(b)),
        forall|n: nat| #[trigger] one_line(decimal(n)),
{
    reveal(one_line);
    reveal_strlit("true");
    reveal_strlit("false");
    assert forall|n: nat| #[trigger] one_line(decimal(n)) by {
        lemma_decimal_digits(n);
        assert forall|i: int| 0 <= i < decimal(n).len() implies decimal(n)[i] != '\n'
            && decimal(n)[i] != '\r' by {
            assert(is_digit(decimal(n)[i]));
        }
    }
}

/// A written field line: indentation, the field, and a comma.
proof fn lemma_field_line(pre: Seq<char>, name: Seq<char>, v: Seq<char>)
    requires
        pre == "  "@ + quoted(name) + ": "@,
        one_line(name),
        one_line(v),
    ensures
        pre + v + ","@ == "  "@ + field_text((name, v)) + ","@,
        one_line(pre + v + ","@),
        !is_comment_line(pre + v + ","@),
{
    reveal(one_line);
    reveal_strlit("  ");
    reveal_strlit(": ");
    reveal_strlit(",");
    let l = pre + v + ","@;
    assert(l =~= "  "@ + field_text((name, v)) + ","@);
    assert(one_line(l)) by {
        assert forall|i: int| 0 <= i < l.len() implies l[i] != '\n' && l[i] != '\r' by {
            if 3 <= i < 3 + name.len() {
                assert(l[i] == name[i - 3]);
            } else if 6 + name.len() <= i < 6 + name.len() + v.len() {
                assert(l[i] == v[i - 6 - name.len()]);
            }
        }
    }
    lemma_code_after(l, 2);
}

proof fn lemma_names_one_line()
    ensures
        one_line("word_wrap"@),
        one_line("indent_with_tabs"@),
        one_line("tab_size"@),
        one_line("newline_crlf"@),
        one_line("line_numbers"@),
        one_line("line_highlight"@),
        one_line("insert_final_newline"@),
        one_line("ruler_column"@),
        one_line("project_folders"@),
        one_line("recent_files"@),
        "  \"word_wrap\": "@ == "  "@ + quoted("word_wrap"@) + ": "@,
        "  \"indent_with_tabs\": "@ == "  "@ + quoted("indent_with_tabs"@) + ": "@,
        "  \"tab_size\": "@ == "  "@ + quoted("tab_size"@) + ": "@,
        "  \"newline_crlf\": "@ == "  "@ + quoted("newline_crlf"@) + ": "@,
        "  \"line_numbers\": "@ == "  "@ + quoted("line_numbers"@) + ": "@,
        "  \"line_highlight\": "@ == "  "@ + quoted("line_highlight"@) + ": "@,
        "  \"insert_final_newline\": "@ == "  "@ + quoted("insert_final_newline"@) + ": "@,
        "  \"ruler_column\": "@ == "  "@ + quoted("ruler_column"@) + ": "@,
        "  \"project_folders\": "@ == "  "@ + quoted("project_folders"@) + ": "@,
        "  \"recent_files\": "@ == "  "@ + quoted("recent_files"@) + ": "@,
{
    reveal(one_line);
    reveal_strlit("word_wrap");
    reveal_strlit("indent_with_tabs");
    reveal_strlit("tab_size");
    reveal_strlit("newline_crlf");
    reveal_strlit("line_numbers");
    reveal_strlit("line_highlight");
    reveal_strlit("insert_final_newline");
    reveal_strlit("ruler_column");
    reveal_strlit("project_folders");
    reveal_strlit("recent_files");
    reveal_strlit("  ");
    reveal_strlit(": ");
    reveal_strlit("  \"word_wrap\": ");
    reveal_strlit("  \"indent_with_tabs\": ");
    reveal_strlit("  \"tab_size\": ");
    reveal_strlit("  \"newline_crlf\": ");
    reveal_strlit("  \"line_numbers\": ");
    reveal_strlit("  \"line_highlight\": ");
    reveal_strlit("  \"insert_final_newline\": ");
    reveal_strlit("  \"ruler_column\": ");
    reveal_strlit("  \"project_folders\": ");
    reveal_strlit("  \"recent_files\": ");
    assert("  \"word_wrap\": "@ =~= "  "@ + quoted("word_wrap"@) + ": "@);
    assert("  \"indent_with_tabs\": "@ =~= "  "@ + quoted("indent_with_tabs"@) + ": "@);
    assert("  \"tab_size\": "@ =~= "  "@ + quoted("tab_size"@) + ": "@);
    assert("  \"newline_crlf\": "@ =~= "  "@ + quoted("newline_crlf"@) + ": "@);
    assert("  \"line_numbers\": "@ =~= "  "@ + quoted("line_numbers"@) + ": "@);
    assert("  \"line_highlight\": "@ =~= "  "@ + quoted("line_highlight"@) + ": "@);
    assert("  \"insert_final_newline\": "@ =~= "  "@ + quoted("insert_final_newline"@) + ": "@);
    assert("  \"ruler_column\": "@ =~= "  "@ + quoted("ruler_column"@) + ": "@);
    assert("  \"project_folders\": "@ =~= "  "@ + quoted("project_folders"@) + ": "@);
    assert("  \"recent_files\": "@ =~= "  "@ + quoted("recent_files"@) + ": "@);
}

/// A comment line of the written file.
pub open spec fn comment(l: Seq<char>) -> bool {
    one_line(l) && is_comment_line(l)
}

proof fn lemma_comments_a()
    ensures
        comment("// OGEdit Configuration"@),
        comment("// Edit this file to customize your settings."@),
        comment("// Lines starting with // are comments and will be ignored."@),
        comment("  // Enable word wrap for long lines (true/false, default: false)"@),
        comment("  // Use tabs for indentation instead of spaces (true/false, default: false)"@),
        one_line("{"@),
        !is_comment_line("{"@),
        "{"@ == seq!['{'],
{
    reveal(one_line);
    reveal_strlit("// OGEdit Configuration");
    reveal_strlit("// Edit this file to customize your settings.");
    reveal_strlit("// Lines starting with // are comments and will be ignored.");
    reveal_strlit("{");
    reveal_strlit("  // Enable word wrap for long lines (true/false, default: false)");
    reveal_strlit("  // Use tabs for indentation instead of spaces (true/false, default: false)");
    lemma_comment_after("// OGEdit Configuration"@, 0);
    lemma_comment_after("// Edit this file to customize your settings."@, 0);
    lemma_comment_after("// Lines starting with // are comments and will be ignored."@, 0);
    lemma_code_after("{"@, 0);
    lemma_comment_after("  // Enable word wrap for long lines (true/false, default: false)"@, 2);
    lemma_comment_after(
        "  // Use tabs for indentation instead of spaces (true/false, default: false)"@,
        2,
    );
}

proof fn lemma_separators()
    ensures
        "\n\n\n{\n\n  "@ == nl() + nl() + nl() + seq!['{'] + nl() + nl() + "  "@,
        field_sep() == ","@ + nl() + nl() + nl() + "  "@,
        ",\n"@ == ","@ + nl(),
        "\n\n  "@ == nl() + nl() + "  "@,
{
    reveal_strlit("\n\n\n{\n\n  ");
    reveal_strlit(",\n\n\n  ");
    reveal_strlit(",\n");
    reveal_strlit("\n\n  ");
    reveal_strlit("  ");
    reveal_strlit(",");
    assert("\n\n\n{\n\n  "@ =~= nl() + nl() + nl() + seq!['{'] + nl() + nl() + "  "@);
    assert(field_sep() =~= ","@ + nl() + nl() + nl() + "  "@);
    assert(",\n"@ =~= ","@ + nl());
    assert("\n\n  "@ =~= nl() + nl() + "  "@);
}

/// Stripping text that ends with a line break, then one more line.
pub proof fn lemma_strip_append(p: Seq<char>, l: Seq<char>)
    requires
        p.len() > 0,
        p.last() == '\n',
        one_line(l),
    ensures
        strip_comments(p + l + nl()) == strip_comments(p) + nl() + keep_line(l),
{
    reveal(one_line);
    assert(plain_line(l));
    assert(p + l + nl() =~= p + (l + nl()));
    lemma_strip_concat(p, l + nl());
    lemma_strip_line(l);
}

/// The first line alone.
pub proof fn lemma_strip_first(l: Seq<char>)
    requires
        one_line(l),
    ensures
        strip_comments(l + nl()) == keep_line(l),
{
    reveal(one_line);
    assert(plain_line(l));
    lemma_strip_line(l);
}

/// The opening lines strip to the brace and the first two fields.
proof fn lemma_strip_part_a(c: ConfigView)
    ensures
        strip_comments(json_part_a(c)) == "\n\n\n{\n\n  "@ + field_text(simple_fields(c)[0])
            + field_sep() + field_text(simple_fields(c)[1]) + ","@,
{
    let fs = simple_fields(c);
    let l1 = "// OGEdit Configuration"@;
    let l2 = "// Edit this file to customize your settings."@;
    let l3 = "// Lines starting with // are comments and will be ignored."@;
    let l4 = "{"@;
    let l5 = "  // Enable word wrap for long lines (true/false, default: false)"@;
    let l6 = "  \"word_wrap\": "@ + bool_text(c.word_wrap) + ","@;
    let l8 = "  // Use tabs for indentation instead of spaces (true/false, default: false)"@;
    let l9 = "  \"indent_with_tabs\": "@ + bool_text(c.indent_with_tabs) + ","@;
    lemma_comments_a();
    lemma_names_one_line();
    lemma_values_one_line();
    lemma_empty_line();
    lemma_field_line("  \"word_wrap\": "@, "word_wrap"@, bool_text(c.word_wrap));
    lemma_field_line("  \"indent_with_tabs\": "@, "indent_with_tabs"@, bool_text(c.indent_with_tabs));
    assert(fs[0] == ("word_wrap"@, bool_text(c.word_wrap)));
    assert(fs[1] == ("indent_with_tabs"@, bool_text(c.indent_with_tabs)));
    let p1 = l1 + nl();
    let p2 = p1 + l2 + nl();
    let p3 = p2 + l3 + nl();
    let p4 = p3 + l4 + nl();
    let p5 = p4 + l5 + nl();
    let p6 = p5 + l6 + nl();
    let p7 = p6 + nl();
    let p8 = p7 + l8 + nl();
    let p9 = p8 + l9 + nl();
    assert(p7 =~= p6 + Seq::<char>::empty() + nl());
    assert(p5 + "  \"word_wrap\": "@ + bool_text(c.word_wrap) + ","@ =~= p5 + l6);
    assert(p8 + "  \"indent_with_tabs\": "@ + bool_text(c.indent_with_tabs) + ","@ =~= p8 + l9);
    assert(json_part_a(c) == p9);
    lemma_strip_first(l1);
    lemma_strip_append(p1, l2);
    lemma_strip_append(p2, l3);
    lemma_strip_append(p3, l4);
    lemma_strip_append(p4, l5);
    lemma_strip_append(p5, l6);
    lemma_strip_append(p6, Seq::<char>::empty());
    lemma_strip_append(p7, l8);
    lemma_strip_append(p8, l9);
    assert(strip_comments(p3) =~= nl() + nl());
    assert(strip_comments(p5) =~= nl() + nl() + nl() + l4 + nl());
    assert(strip_comments(p7) =~= nl() + nl() + nl() + l4 + nl() + nl() + l6 + nl());
    assert(strip_comments(p9) =~= nl() + nl() + nl() + l4 + nl() + nl() + l6 + nl() + nl() + nl()
        + l9);
    lemma_join_a(l4, l6, l9, field_text(fs[0]), field_text(fs[1]));
}

proof fn lemma_join_a(l4: Seq<char>, l6: Seq<char>, l9: Seq<char>, f1: Seq<char>, f2: Seq<char>)
    requires
        l4 == seq!['{'],
        l6 == "  "@ + f1 + ","@,
        l9 == "  "@ + f2 + ","@,
    ensures
        nl() + nl() + nl() + l4 + nl() + nl() + l6 + nl() + nl() + nl() + l9 == "\n\n\n{\n\n  "@
            + f1 + field_sep() + f2 + ","@,
{
    lemma_separators();
    assert(nl() + nl() + nl() + l4 + nl() + nl() + l6 + nl() + nl() + nl() + l9 =~= "\n\n\n{\n\n  "@
        + f1 + field_sep() + f2 + ","@);
}

/// A group of three fields as the middle parts of the file write them: an
/// empty line, a comment, a field; an empty line, a comment naming a
/// default, a field; an empty line, a comment, a field.
pub open spec fn group_text(
    ca: Seq<char>,
    cb: Seq<char>,
    b: Seq<char>,
    cc: Seq<char>,
    px: Seq<char>,
    vx: Seq<char>,
    py: Seq<char>,
    vy: Seq<char>,
    pz: Seq<char>,
    vz: Seq<char>,
) -> Seq<char> {
    nl() + ca + nl() + px + vx + ","@ + nl() + nl() + cb + b + ")"@ + nl() + py + vy + ","@ + nl()
        + nl() + cc + nl() + pz + vz + ","@ + nl()
}

proof fn lemma_strip_group(
    ca: Seq<char>,
    cb: Seq<char>,
    b: Seq<char>,
    cc: Seq<char>,
    nx: Seq<char>,
    px: Seq<char>,
    vx: Seq<char>,
    ny: Seq<char>,
    py: Seq<char>,
    vy: Seq<char>,
    nz: Seq<char>,
    pz: Seq<char>,
    vz: Seq<char>,
)
    requires
        comment(ca),
        comment(cb + b + ")"@),
        comment(cc),
        one_line(nx),
        one_line(ny),
        one_line(nz),
        one_line(vx),
        one_line(vy),
        one_line(vz),
        px == "  "@ + quoted(nx) + ": "@,
        py == "  "@ + quoted(ny) + ": "@,
        pz == "  "@ + quoted(nz) + ": "@,
    ensures
        strip_comments(group_text(ca, cb, b, cc, px, vx, py, vy, pz, vz)) == "\n\n  "@ + field_text(
            (nx, vx),
        ) + field_sep() + field_text((ny, vy)) + field_sep() + field_text((nz, vz)) + ","@,
{
    let e = Seq::<char>::empty();
    let lx = px + vx + ","@;
    let lb = cb + b + ")"@;
    let ly = py + vy + ","@;
    let lz = pz + vz + ","@;
    lemma_empty_line();
    lemma_field_line(px, nx, vx);
    lemma_field_line(py, ny, vy);
    lemma_field_line(pz, nz, vz);
    let p1 = nl();
    let p2 = p1 + ca + nl();
    let p3 = p2 + lx + nl();
    let p4 = p3 + nl();
    let p5 = p4 + lb + nl();
    let p6 = p5 + ly + nl();
    let p7 = p6 + nl();
    let p8 = p7 + cc + nl();
    let p9 = p8 + lz + nl();
    assert(p1 =~= e + nl());
    assert(p4 =~= p3 + e + nl());
    assert(p7 =~= p6 + e + nl());
    assert(p2 + px + vx + ","@ =~= p2 + lx);
    assert(p4 + cb + b + ")"@ =~= p4 + lb);
    assert(p5 + py + vy + ","@ =~= p5 + ly);
    assert(p8 + pz + vz + ","@ =~= p8 + lz);
    assert(group_text(ca, cb, b, cc, px, vx, py, vy, pz, vz) == p9);
    lemma_strip_first(e);
    lemma_strip_append(p1, ca);
    lemma_strip_append(p2, lx);
    lemma_strip_append(p3, e);
    lemma_strip_append(p4, lb);
    lemma_strip_append(p5, ly);
    lemma_strip_append(p6, e);
    lemma_strip_append(p7, cc);
    lemma_strip_append(p8, lz);
    assert(strip_comments(p9) =~= nl() + nl() + lx + nl() + nl() + nl() + ly + nl() + nl() + nl()
        + lz);
    lemma_join_group(lx, ly, lz, field_text((nx, vx)), field_text((ny, vy)), field_text((nz, vz)));
}

proof fn lemma_join_group(
    lx: Seq<char>,
    ly: Seq<char>,
    lz: Seq<char>,
    fx: Seq<char>,
    fy: Seq<char>,
    fz: Seq<char>,
)
    requires
        lx == "  "@ + fx + ","@,
        ly == "  "@ + fy + ","@,
        lz == "  "@ + fz + ","@,
    ensures
        nl() + nl() + lx + nl() + nl() + nl() + ly + nl() + nl() + nl() + lz == "\n\n  "@ + fx
            + field_sep() + fy + field_sep() + fz + ","@,
{
    lemma_separators();
    assert(nl() + nl() + lx + nl() + nl() + nl() + ly + nl() + nl() + nl() + lz =~= "\n\n  "@ + fx
        + field_sep() + fy + field_sep() + fz + ","@);
}

proof fn lemma_comments_bc(w: bool)
    ensures
        comment("  // Number of spaces per tab/indentation level (1-8, default: 4)"@),
        comment(
            "  // Use Windows line endings CRLF (true) or Unix LF (false, default: "@ + bool_text(w)
                + ")"@,
        ),
        comment("  // Show line numbers in left margin (true/false, default: true)"@),
        comment("  // Highlight the current line (true/false, default: true)"@),
        comment(
            "  // Add newline at end of file when saving (true/false, default: "@ + bool_text(!w)
                + ")"@,
        ),
        comment("  // Show vertical ruler at column, 0 to disable (0-255, default: 0)"@),
{
    reveal(one_line);
    reveal_strlit("  // Number of spaces per tab/indentation level (1-8, default: 4)");
    reveal_strlit("  // Use Windows line endings CRLF (true) or Unix LF (false, default: ");
    reveal_strlit("  // Show line numbers in left margin (true/false, default: true)");
    reveal_strlit("  // Highlight the current line (true/false, default: true)");
    reveal_strlit("  // Add newline at end of file when saving (true/false, default: ");
    reveal_strlit("  // Show vertical ruler at column, 0 to disable (0-255, default: 0)");
    reveal_strlit(")");
    lemma_values_one_line();
    let l1 = "  // Use Windows line endings CRLF (true) or Unix LF (false, default: "@;
    let l2 = "  // Add newline at end of file when saving (true/false, default: "@;
    lemma_one_line_concat(l1, bool_text(w));
    lemma_one_line_concat(l1 + bool_text(w), ")"@);
    lemma_one_line_concat(l2, bool_text(!w));
    lemma_one_line_concat(l2 + bool_text(!w), ")"@);
    lemma_comment_after("  // Number of spaces per tab/indentation level (1-8, default: 4)"@, 2);
    lemma_comment_after(l1 + bool_text(w) + ")"@, 2);
    lemma_comment_after("  // Show line numbers in left margin (true/false, default: true)"@, 2);
    lemma_comment_after("  // Highlight the current line (true/false, default: true)"@, 2);
    lemma_comment_after(l2 + bool_text(!w) + ")"@, 2);
    lemma_comment_after("  // Show vertical ruler at column, 0 to disable (0-255, default: 0)"@, 2);
}

/// The lines of `tab_size`, `newline_crlf` and `line_numbers` strip to
/// those three fields.
proof fn lemma_strip_part_b(c: ConfigView, w: bool)
    ensures
        strip_comments(json_part_b(c, w)) == "\n\n  "@ + field_text(simple_fields(c)[2])
            + field_sep() + field_text(simple_fields(c)[3]) + field_sep() + field_text(
            simple_fields(c)[4],
        ) + ","@,
{
    let fs = simple_fields(c);
    lemma_comments_bc(w);
    lemma_names_one_line();
    lemma_values_one_line();
    assert(json_part_b(c, w) == group_text(
        "  // Number of spaces per tab/indentation level (1-8, default: 4)"@,
        "  // Use Windows line endings CRLF (true) or Unix LF (false, default: "@,
        bool_text(w),
        "  // Show line numbers in left margin (true/false, default: true)"@,
        "  \"tab_size\": "@,
        decimal(c.tab_size as nat),
        "  \"newline_crlf\": "@,
        bool_text(c.newline_crlf),
        "  \"line_numbers\": "@,
        bool_text(c.line_numbers),
    ));
    lemma_strip_group(
        "  // Number of spaces per tab/indentation level (1-8, default: 4)"@,
        "  // Use Windows line endings CRLF (true) or Unix LF (false, default: "@,
        bool_text(w),
        "  // Show line numbers in left margin (true/false, default: true)"@,
        "tab_size"@,
        "  \"tab_size\": "@,
        decimal(c.tab_size as nat),
        "newline_crlf"@,
        "  \"newline_crlf\": "@,
        bool_text(c.newline_crlf),
        "line_numbers"@,
        "  \"line_numbers\": "@,
        bool_text(c.line_numbers),
    );
}

/// The lines of `line_highlight`, `insert_final_newline` and `ruler_column`
/// strip to those three fields.
proof fn lemma_strip_part_c(c: ConfigView, w: bool)
    ensures
        strip_comments(json_part_c(c, w)) == "\n\n  "@ + field_text(simple_fields(c)[5])
            + field_sep() + field_text(simple_fields(c)[6]) + field_sep() + field_text(
            simple_fields(c)[7],
        ) + ","@,
{
    let fs = simple_fields(c);
    lemma_comments_bc(w);
    lemma_names_one_line();
    lemma_values_one_line();
    assert(json_part_c(c, w) == group_text(
        "  // Highlight the current line (true/false, default: true)"@,
        "  // Add newline at end of file when saving (true/false, default: "@,
        bool_text(!w),
        "  // Show vertical ruler at column, 0 to disable (0-255, default: 0)"@,
        "  \"line_highlight\": "@,
        bool_text(c.line_highlight),
        "  \"insert_final_newline\": "@,
        bool_text(c.insert_final_newline),
        "  \"ruler_column\": "@,
        decimal(c.ruler_column as nat),
    ));
    lemma_strip_group(
        "  // Highlight the current line (true/false, default: true)"@,
        "  // Add newline at end of file when saving (true/false, default: "@,
        bool_text(!w),
        "  // Show vertical ruler at column, 0 to disable (0-255, default: 0)"@,
        "line_highlight"@,
        "  \"line_highlight\": "@,
        bool_text(c.line_highlight),
        "insert_final_newline"@,
        "  \"insert_final_newline\": "@,
        bool_text(c.insert_final_newline),
        "ruler_column"@,
        "  \"ruler_column\": "@,
        decimal(c.ruler_column as nat),
    );
}

/// A line of the folder table, with the comma that may follow it.
proof fn lemma_folder_entry_line(e: (Seq<char>, Seq<char>), q: Seq<char>)
    requires
        q == ""@ || q == ","@,
    ensures
        one_line(folder_entry(e) + q),
        !is_comment_line(folder_entry(e) + q),
{
    reveal(one_line);
    reveal_strlit("    \"");
    reveal_strlit("\": \"");
    reveal_strlit("\"");
    reveal_strlit("");
    reveal_strlit(",");
    lemma_escape_json_chars(e.0);
    lemma_escape_json_chars(e.1);
    let a = escape_json(e.0);
    let b = escape_json(e.1);
    let l = folder_entry(e) + q;
    assert(l =~= "    \""@ + a + "\": \""@ + b + "\""@ + q);
    assert forall|i: int| 0 <= i < l.len() implies l[i] != '\n' && l[i] != '\r' by {
        if 5 <= i < 5 + a.len() {
            assert(l[i] == a[i - 5]);
        } else if 9 + a.len() <= i < 9 + a.len() + b.len() {
            assert(l[i] == b[i - 9 - a.len()]);
        }
    }
    lemma_code_after(l, 4);
}

/// A line of the recent-file array, with the comma that may follow it.
proof fn lemma_recent_entry_line(r: (Seq<char>, u64), q: Seq<char>)
    requires
        q == ""@ || q == ","@,
    ensures
        one_line(recent_entry(r) + q),
        !is_comment_line(recent_entry(r) + q),
{
    reveal(one_line);
    reveal_strlit("    { \"path\": \"");
    reveal_strlit("\", \"opened_at\": ");
    reveal_strlit(" }");
    reveal_strlit("");
    reveal_strlit(",");
    lemma_escape_json_chars(r.0);
    lemma_decimal_digits(r.1 as nat);
    let a = escape_json(r.0);
    let d = decimal(r.1 as nat);
    let l = recent_entry(r) + q;
    assert(l =~= "    { \"path\": \""@ + a + "\", \"opened_at\": "@ + d + " }"@ + q);
    assert forall|i: int| 0 <= i < l.len() implies l[i] != '\n' && l[i] != '\r' by {
        if 15 <= i < 15 + a.len() {
            assert(l[i] == a[i - 15]);
        } else if 31 + a.len() <= i < 31 + a.len() + d.len() {
            assert(l[i] == d[i - 31 - a.len()]);
            assert(is_digit(d[i - 31 - a.len()]));
        }
    }
    lemma_code_after(l, 4);
}

proof fn lemma_regroup_line(p: Seq<char>, a: Seq<char>, q: Seq<char>)
    ensures
        p + a + q + nl() == p + (a + q) + nl(),
{
    assert(p + a + q + nl() =~= p + (a + q) + nl());
}

proof fn lemma_regroup_lines(p: Seq<char>, a: Seq<char>, x: Seq<char>, q: Seq<char>)
    ensures
        p + (a + ",\n"@ + x) + q + nl() == (p + a + ","@ + nl()) + (x + q) + nl(),
{
    reveal_strlit(",\n");
    reveal_strlit(",");
    assert(p + (a + ",\n"@ + x) + q + nl() =~= (p + a + ","@ + nl()) + (x + q) + nl());
}

proof fn lemma_regroup_kept(sp: Seq<char>, a: Seq<char>, x: Seq<char>, q: Seq<char>)
    ensures
        sp + nl() + a + ","@ + nl() + (x + q) == sp + nl() + (a + ",\n"@ + x) + q,
{
    reveal_strlit(",\n");
    reveal_strlit(",");
    assert(sp + nl() + a + ","@ + nl() + (x + q) =~= sp + nl() + (a + ",\n"@ + x) + q);
}

/// The lines of the folder table strip to themselves.
proof fn lemma_strip_folder_lines(p: Seq<char>, f: Seq<(Seq<char>, Seq<char>)>, q: Seq<char>)
    requires
        p.len() > 0,
        p.last() == '\n',
        f.len() > 0,
        q == ""@ || q == ","@,
    ensures
        strip_comments(p + folder_lines(f) + q + nl()) == strip_comments(p) + nl() + folder_lines(f)
            + q,
    decreases f.len(),
{
    let x = f.last();
    lemma_folder_entry_line(x, q);
    if f.len() == 1 {
        assert(folder_lines(f) == folder_entry(f[0]));
        lemma_regroup_line(p, folder_lines(f), q);
        lemma_strip_append(p, folder_entry(x) + q);
        assert(strip_comments(p) + nl() + (folder_entry(x) + q) == strip_comments(p) + nl()
            + folder_lines(f) + q);
    } else {
        let fp = f.drop_last();
        reveal_strlit(",\n");
        reveal_strlit(",");
        assert(folder_lines(f) == folder_lines(fp) + ",\n"@ + folder_entry(x));
        lemma_strip_folder_lines(p, fp, ","@);
        let p2 = p + folder_lines(fp) + ","@ + nl();
        lemma_regroup_lines(p, folder_lines(fp), folder_entry(x), q);
        lemma_strip_append(p2, folder_entry(x) + q);
        lemma_regroup_kept(strip_comments(p), folder_lines(fp), folder_entry(x), q);
    }
}

/// The lines of the recent-file array strip to themselves.
proof fn lemma_strip_recent_lines(p: Seq<char>, f: Seq<(Seq<char>, u64)>, q: Seq<char>)
    requires
        p.len() > 0,
        p.last() == '\n',
        f.len() > 0,
        q == ""@ || q == ","@,
    ensures
        strip_comments(p + recent_lines(f) + q + nl()) == strip_comments(p) + nl() + recent_lines(f)
            + q,
    decreases f.len(),
{
    let x = f.last();
    lemma_recent_entry_line(x, q);
    if f.len() == 1 {
        assert(recent_lines(f) == recent_entry(f[0]));
        lemma_regroup_line(p, recent_lines(f), q);
        lemma_strip_append(p, recent_entry(x) + q);
        assert(strip_comments(p) + nl() + (recent_entry(x) + q) == strip_comments(p) + nl()
            + recent_lines(f) + q);
    } else {
        let fp = f.drop_last();
        reveal_strlit(",\n");
        reveal_strlit(",");
        assert(recent_lines(f) == recent_lines(fp) + ",\n"@ + recent_entry(x));
        lemma_strip_recent_lines(p, fp, ","@);
        let p2 = p + recent_lines(fp) + ","@ + nl();
        lemma_regroup_lines(p, recent_lines(fp), recent_entry(x), q);
        lemma_strip_append(p2, recent_entry(x) + q);
        lemma_regroup_kept(strip_comments(p), recent_lines(fp), recent_entry(x), q);
    }
}

/// The folder field, over one or more lines, strips to itself.
proof fn lemma_strip_folders_field(p: Seq<char>, f: Seq<(Seq<char>, Seq<char>)>)
    requires
        p.len() > 0,
        p.last() == '\n',
    ensures
        strip_comments(p + "  \"project_folders\": "@ + folders_json(f) + ","@ + nl())
            == strip_comments(p) + nl() + "  \"project_folders\": "@ + folders_json(f) + ","@,
{
    reveal(one_line);
    let pre = "  \"project_folders\": "@;
    reveal_strlit("  \"project_folders\": ");
    reveal_strlit(",");
    let fj = folders_json(f);
    if f.len() == 0 {
        reveal_strlit("{}");
        let l = pre + fj + ","@;
        assert(one_line(l));
        lemma_code_after(l, 2);
        assert(p + pre + fj + ","@ + nl() =~= p + l + nl());
        lemma_strip_append(p, l);
        assert(strip_comments(p) + nl() + l =~= strip_comments(p) + nl() + pre + fj + ","@);
    } else {
        reveal_strlit("{\n");
        reveal_strlit("\n  }");
        reveal_strlit("{");
        reveal_strlit("  },");
        reveal_strlit("");
        let lo = pre + "{"@;
        let lc = "  },"@;
        assert(one_line(lo));
        assert(one_line(lc));
        lemma_code_after(lo, 2);
        lemma_code_after(lc, 2);
        let p1 = p + lo + nl();
        let p2 = p1 + folder_lines(f) + ""@ + nl();
        let p3 = p2 + lc + nl();
        assert(p + pre + fj + ","@ + nl() =~= p3);
        lemma_strip_append(p, lo);
        lemma_strip_folder_lines(p1, f, ""@);
        lemma_strip_append(p2, lc);
        assert(strip_comments(p3) =~= strip_comments(p) + nl() + pre + fj + ","@);
    }
}

/// The recent-file field, over one or more lines, strips to itself.
proof fn lemma_strip_recent_field(p: Seq<char>, f: Seq<(Seq<char>, u64)>)
    requires
        p.len() > 0,
        p.last() == '\n',
    ensures
        strip_comments(p + "  \"recent_files\": "@ + recent_json(f) + nl()) == strip_comments(p)
            + nl() + "  \"recent_files\": "@ + recent_json(f),
{
    reveal(one_line);
    let pre = "  \"recent_files\": "@;
    reveal_strlit("  \"recent_files\": ");
    let rj = recent_json(f);
    if f.len() == 0 {
        reveal_strlit("[]");
        let l = pre + rj;
        assert(one_line(l));
        lemma_code_after(l, 2);
        assert(p + pre + rj + nl() =~= p + l + nl());
        lemma_strip_append(p, l);
        assert(strip_comments(p) + nl() + l =~= strip_comments(p) + nl() + pre + rj);
    } else {
        reveal_strlit("[\n");
        reveal_strlit("\n  ]");
        reveal_strlit("[");
        reveal_strlit("  ]");
        reveal_strlit("");
        let lo = pre + "["@;
        let lc = "  ]"@;
        assert(one_line(lo));
        assert(one_line(lc));
        lemma_code_after(lo, 2);
        lemma_code_after(lc, 2);
        let p1 = p + lo + nl();
        let p2 = p1 + recent_lines(f) + ""@ + nl();
        let p3 = p2 + lc + nl();
        assert(p + pre + rj + nl() =~= p3);
        lemma_strip_append(p, lo);
        lemma_strip_recent_lines(p1, f, ""@);
        lemma_strip_append(p2, lc);
        assert(strip_comments(p3) =~= strip_comments(p) + nl() + pre + rj);
    }
}

proof fn lemma_comments_d()
    ensures
        comment("  // Per-project last-used save folder (auto-managed, do not edit)"@),
        comment("  // Recently opened files (auto-managed, do not edit)"@),
        one_line("}"@),
        !is_comment_line("}"@),
        "}"@ == seq!['}'],
{
    reveal(one_line);
    reveal_strlit("  // Per-project last-used save folder (auto-managed, do not edit)");
    reveal_strlit("  // Recently opened files (auto-managed, do not edit)");
    reveal_strlit("}");
    lemma_comment_after("  // Per-project last-used save folder (auto-managed, do not edit)"@, 2);
    lemma_comment_after("  // Recently opened files (auto-managed, do not edit)"@, 2);
    lemma_code_after("}"@, 0);
}

/// The closing lines strip to the two list fields and the brace.
proof fn lemma_strip_part_d(c: ConfigView)
    ensures
        strip_comments(json_part_d(c)) == "\n\n  "@ + field_text(
            ("project_folders"@, folders_json(c.project_folders)),
        ) + field_sep() + field_text(("recent_files"@, recent_json(c.recent_files))) + "\n}"@,
{
    let e = Seq::<char>::empty();
    let c1 = "  // Per-project last-used save folder (auto-managed, do not edit)"@;
    let c2 = "  // Recently opened files (auto-managed, do not edit)"@;
    let pre9 = "  \"project_folders\": "@;
    let pre10 = "  \"recent_files\": "@;
    let fj = folders_json(c.project_folders);
    let rj = recent_json(c.recent_files);
    lemma_comments_d();
    lemma_empty_line();
    let p1 = nl();
    let p2 = p1 + c1 + nl();
    let p3 = p2 + pre9 + fj + ","@ + nl();
    let p4 = p3 + nl();
    let p5 = p4 + c2 + nl();
    let p6 = p5 + pre10 + rj + nl();
    let p7 = p6 + "}"@ + nl();
    assert(p1 =~= e + nl());
    assert(p4 =~= p3 + e + nl());
    assert(json_part_d(c) == p7);
    lemma_strip_first(e);
    lemma_strip_append(p1, c1);
    lemma_strip_folders_field(p2, c.project_folders);
    lemma_strip_append(p3, e);
    lemma_strip_append(p4, c2);
    lemma_strip_recent_field(p5, c.recent_files);
    lemma_strip_append(p6, "}"@);
    let w9 = pre9 + fj + ","@;
    let w10 = pre10 + rj;
    assert(strip_comments(p7) =~= nl() + nl() + w9 + nl() + nl() + nl() + w10 + nl() + "}"@);
    lemma_names_one_line();
    assert(w9 =~= "  "@ + field_text(("project_folders"@, fj)) + ","@);
    assert(w10 =~= "  "@ + field_text(("recent_files"@, rj)));
    lemma_join_d(w9, w10, field_text(("project_folders"@, fj)), field_text(("recent_files"@, rj)));
}

proof fn lemma_join_d(w9: Seq<char>, w10: Seq<char>, f9: Seq<char>, f10: Seq<char>)
    requires
        w9 == "  "@ + f9 + ","@,
        w10 == "  "@ + f10,
    ensures
        nl() + nl() + w9 + nl() + nl() + nl() + w10 + nl() + "}"@ == "\n\n  "@ + f9 + field_sep()
            + f10 + "\n}"@,
{
    lemma_separators();
    reveal_strlit("}");
    reveal_strlit("\n}");
    assert(nl() + nl() + w9 + nl() + nl() + nl() + w10 + nl() + "}"@ =~= "\n\n  "@ + f9
        + field_sep() + f10 + "\n}"@);
}

proof fn lemma_fields_sep_last(fs: Seq<(Seq<char>, Seq<char>)>)
    requires
        fs.len() > 0,
    ensures
        fields_sep(fs) == fields_sep(fs.drop_last()) + field_text(fs.last()) + field_sep(),
    decreases fs.len(),
{
    let r = fs.drop_first();
    if fs.len() == 1 {
        assert(fs.drop_last() =~= Seq::<(Seq<char>, Seq<char>)>::empty());
        assert(r =~= Seq::<(Seq<char>, Seq<char>)>::empty());
        assert(fields_sep(fs) =~= fields_sep(fs.drop_last()) + field_text(fs.last()) + field_sep());
    } else {
        lemma_fields_sep_last(r);
        assert(r.drop_last() =~= fs.drop_last().drop_first());
        assert(fs.drop_last()[0] == fs[0]);
        assert(r.last() == fs.last());
        assert(fields_sep(fs) =~= fields_sep(fs.drop_last()) + field_text(fs.last()) + field_sep());
    }
}

/// The first eight fields, written one after the other.
proof fn lemma_simple_fields_text(c: ConfigView)
    ensures
        ({
            let fs = simple_fields(c);
            let s = field_sep();
            fields_sep(fs) == field_text(fs[0]) + s + field_text(fs[1]) + s + field_text(fs[2]) + s
                + field_text(fs[3]) + s + field_text(fs[4]) + s + field_text(fs[5]) + s + field_text(
                fs[6],
            ) + s + field_text(fs[7]) + s
        }),
{
    let fs = simple_fields(c);
    let s = field_sep();
    let mut k: int = 8;
    lemma_fields_sep_last(fs.take(8));
    lemma_fields_sep_last(fs.take(7));
    lemma_fields_sep_last(fs.take(6));
    lemma_fields_sep_last(fs.take(5));
    lemma_fields_sep_last(fs.take(4));
    lemma_fields_sep_last(fs.take(3));
    lemma_fields_sep_last(fs.take(2));
    lemma_fields_sep_last(fs.take(1));
    assert(fs.take(8) =~= fs);
    assert(fs.take(8).drop_last() =~= fs.take(7));
    assert(fs.take(7).drop_last() =~= fs.take(6));
    assert(fs.take(6).drop_last() =~= fs.take(5));
    assert(fs.take(5).drop_last() =~= fs.take(4));
    assert(fs.take(4).drop_last() =~= fs.take(3));
    assert(fs.take(3).drop_last() =~= fs.take(2));
    assert(fs.take(2).drop_last() =~= fs.take(1));
    assert(fs.take(1).drop_last() =~= fs.take(0));
    assert(fs.take(0) =~= Seq::<(Seq<char>, Seq<char>)>::empty());
    assert(fields_sep(fs) =~= field_text(fs[0]) + s + field_text(fs[1]) + s + field_text(fs[2]) + s
        + field_text(fs[3]) + s + field_text(fs[4]) + s + field_text(fs[5]) + s + field_text(fs[6])
        + s + field_text(fs[7]) + s);
}

/// The four parts of the written file end with line breaks.
proof fn lemma_parts_end(c: ConfigView, w: bool)
    ensures
        json_part_a(c).len() > 0 && json_part_a(c).last() == '\n',
        json_part_b(c, w).len() > 0 && json_part_b(c, w).last() == '\n',
        json_part_c(c, w).len() > 0 && json_part_c(c, w).last() == '\n',
        json_part_d(c).len() > 0,
{
}

proof fn lemma_concat_end(a: Seq<char>, b: Seq<char>)
    requires
        b.len() > 0,
        b.last() == '\n',
    ensures
        (a + b).len() > 0 && (a + b).last() == '\n',
{
    assert((a + b)[(a + b).len() - 1] == b[b.len() - 1]);
}

#[verifier::spinoff_prover]
#[verifier::rlimit(40)]
proof fn lemma_join_parts(
    f: (Seq<char>, Seq<char>, Seq<char>, Seq<char>, Seq<char>),
    g: (Seq<char>, Seq<char>, Seq<char>, Seq<char>, Seq<char>),
    a: Seq<char>,
    b: Seq<char>,
    c: Seq<char>,
    d: Seq<char>,
    fsep: Seq<char>,
)
    requires
        fsep == f.0 + field_sep() + f.1 + field_sep() + f.2 + field_sep() + f.3 + field_sep() + f.4
            + field_sep() + g.0 + field_sep() + g.1 + field_sep() + g.2 + field_sep(),
        a == "\n\n\n{\n\n  "@ + f.0 + field_sep() + f.1 + ","@,
        b == "\n\n  "@ + f.2 + field_sep() + f.3 + field_sep() + f.4 + ","@,
        c == "\n\n  "@ + g.0 + field_sep() + g.1 + field_sep() + g.2 + ","@,
        d == "\n\n  "@ + g.3 + field_sep() + g.4 + "\n}"@,
    ensures
        a + nl() + b + nl() + c + nl() + d == "\n\n\n{\n\n  "@ + (fsep + g.3 + field_sep() + g.4)
            + "\n}"@,
{
    lemma_separators();
    assert(","@ + nl() + "\n\n  "@ =~= field_sep());
    assert(a + nl() + b + nl() + c + nl() + d =~= "\n\n\n{\n\n  "@ + (fsep + g.3 + field_sep()
        + g.4) + "\n}"@);
}

/// What the reader keeps of a written file: the body of fields between the
/// braces, after three emptied comment lines.
pub proof fn lemma_strip_config(c: ConfigView, w: bool)
    ensures
        strip_comments(config_json(c, w)) == "\n\n\n{\n\n  "@ + config_body(c) + "\n}"@,
{
    let a = json_part_a(c);
    let b = json_part_b(c, w);
    let cc = json_part_c(c, w);
    let d = json_part_d(c);
    lemma_parts_end(c, w);
    lemma_concat_end(a, b);
    lemma_concat_end(a + b, cc);
    lemma_strip_concat(a, b);
    lemma_strip_concat(a + b, cc);
    lemma_strip_concat(a + b + cc, d);
    lemma_strip_part_a(c);
    lemma_strip_part_b(c, w);
    lemma_strip_part_c(c, w);
    lemma_strip_part_d(c);
    let fs = simple_fields(c);
    lemma_simple_fields_text(c);
    lemma_join_parts(
        (field_text(fs[0]), field_text(fs[1]), field_text(fs[2]), field_text(fs[3]), field_text(fs[4])),
        (
            field_text(fs[5]),
            field_text(fs[6]),
            field_text(fs[7]),
            field_text(("project_folders"@, folders_json(c.project_folders))),
            field_text(("recent_files"@, recent_json(c.recent_files))),
        ),
        strip_comments(a),
        strip_comments(b),
        strip_comments(cc),
        strip_comments(d),
        fields_sep(fs),
    );
}

proof fn lemma_skip_ws_back_run(s: Seq<char>, j: int, k: int)
    requires
        0 < k <= j <= s.len(),
        forall|m: int| k <= m < j ==> is_ws(#[trigger] s[m]),
        !is_ws(s[k - 1]),
    ensures
        skip_ws_back(s, j) == k,
    decreases j - k,
{
    if j > k {
        lemma_skip_ws_back_run(s, j - 1, k);
    }
}

proof fn lemma_skip_ws_run(s: Seq<char>, i: int, k: int)
    requires
        0 <= i <= k < s.len(),
        forall|m: int| i <= m < k ==> is_ws(#[trigger] s[m]),
        !is_ws(s[k]),
    ensures
        skip_ws(s, i) == k,
    decreases k - i,
{
    if i < k {
        lemma_skip_ws_run(s, i + 1, k);
    }
}

/// Trimming the kept text, and then its inside, leaves the body.
proof fn lemma_trim_config(body: Seq<char>)
    requires
        body.len() > 0,
        !is_ws(body[0]),
        !is_ws(body.last()),
    ensures
        ({
            let j = trim("\n\n\n{\n\n  "@ + body + "\n}"@);
            &&& j.len() > 0
            &&& j[0] == '{'
            &&& j[j.len() - 1] == '}'
            &&& trim(j.subrange(1, j.len() - 1)) == body
        }),
{
    reveal_strlit("\n\n\n{\n\n  ");
    reveal_strlit("\n}");
    let k = "\n\n\n{\n\n  "@ + body + "\n}"@;
    let n = k.len() as int;
    assert(k[n - 1] == '}');
    lemma_skip_ws_back_run(k, n, n);
    assert(trim_end(k) =~= k);
    assert(k[3] == '{');
    lemma_skip_ws_run(k, 0, 3);
    let j = k.subrange(3, n);
    assert(trim(k) == j);
    let inner = j.subrange(1, j.len() - 1);
    assert(inner =~= "\n\n  "@ + body + seq!['\n']) by {
        reveal_strlit("\n\n  ");
    }
    reveal_strlit("\n\n  ");
    let m = inner.len() as int;
    assert(inner[m - 1] == '\n');
    assert(inner[m - 2] == body.last());
    lemma_skip_ws_back_run(inner, m, m - 1);
    let te = inner.subrange(0, m - 1);
    assert(te =~= "\n\n  "@ + body);
    assert(te[4] == body[0]);
    lemma_skip_ws_run(te, 0, 4);
    assert(trim_start(te) =~= body);
}

/// A configuration that the file can keep reads back, whatever the defaults
/// of the reader, from the file that the writer writes for it, on either
/// platform.
pub proof fn lemma_config_roundtrip(c: ConfigView, windows: bool, d: ConfigView)
    requires
        keepable(c),
    ensures
        parse_config(config_json(c, windows), d) == Some(c),
{
    lemma_strip_config(c, windows);
    let body = config_body(c);
    lemma_body_shape(c);
    lemma_trim_config(body);
    assert(body[0] == '"');
    assert(body.contains('"'));
    lemma_body_reads(c, d);
}

proof fn lemma_body_shape(c: ConfigView)
    ensures
        config_body(c).len() > 0,
        config_body(c)[0] == '"',
        config_body(c).last() == ']',
{
    let fs = simple_fields(c);
    lemma_simple_fields_text(c);
    let rj = recent_json(c.recent_files);
    reveal_strlit(": ");
    assert(field_text(fs[0])[0] == '"');
    reveal_strlit("[]");
    reveal_strlit("\n  ]");
    assert(rj.last() == ']');
    let f10 = field_text(("recent_files"@, rj));
    assert(f10.last() == ']');
    assert(config_body(c).last() == f10.last());
    assert(config_body(c)[0] == fields_sep(fs)[0]);
}

} // verus!
