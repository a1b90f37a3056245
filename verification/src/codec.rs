//! The persisted format of the configuration document: a pretty-printed
//! JSON object, read back tolerating arbitrary whitespace, the schema's
//! members in any order, and the standard string escapes (including
//! `\uXXXX` with surrogate pairs).  A member outside the schema, or one
//! given twice, is a schema mismatch and is rejected.
//!
//! `save` and `load` are exact images of the spec-level `emit_doc` and
//! `load_spec`, and `lemma_load_of_save` states the round trip: every
//! document reads back as itself.

use vstd::prelude::*;
use vstd::string::StrSliceExecFns;
use vstd::string::StringExecFns;
use crate::doc::{
    build_models, configure_models, run_models, BuildJson, CacheJson, CmdModel, ConfigureJson,
    DocModel, RunJson, RunModel,
};

verus! {

// ---------------------------------------------------------------------
// Emission: the canonical text of a document.
// ---------------------------------------------------------------------

/// Lead-in of a top-level member (newline plus its indentation).
pub open spec fn pad_top() -> Seq<char> {
    "\n  "@
}

/// Lead-in of a top-level array element or entry object.
pub open spec fn pad_elem() -> Seq<char> {
    "\n    "@
}

/// Lead-in of a member inside an entry object.
pub open spec fn pad_key() -> Seq<char> {
    "\n      "@
}

/// Lead-in of an element of an entry's `args` array.
pub open spec fn pad_arg() -> Seq<char> {
    "\n        "@
}

/// Hexadecimal digit character for a value below 16.
pub open spec fn hex_digit(n: int) -> char {
    if n < 10 {
        ((48 + n) as u8) as char
    } else {
        ((87 + n) as u8) as char
    }
}

/// How one character is written inside a JSON string: quote and backslash
/// escaped, control characters as `\u00XX`, everything else as itself.
pub open spec fn escape_char(c: char) -> Seq<char> {
    if c == '"' {
        "\\\""@
    } else if c == '\\' {
        "\\\\"@
    } else if (c as u32) < 32 {
        "\\u00"@ + seq![hex_digit(c as u32 as int / 16), hex_digit(c as u32 as int % 16)]
    } else {
        seq![c]
    }
}

pub open spec fn emit_str_body(s: Seq<char>) -> Seq<char>
    decreases s.len(),
{
    if s.len() == 0 {
        Seq::empty()
    } else {
        escape_char(s[0]) + emit_str_body(s.skip(1))
    }
}

pub open spec fn emit_string(s: Seq<char>) -> Seq<char> {
    "\""@ + emit_str_body(s) + "\""@
}

pub open spec fn emit_bool(b: bool) -> Seq<char> {
    if b {
        "true"@
    } else {
        "false"@
    }
}

pub open spec fn emit_str_items(items: Seq<Seq<char>>, pad: Seq<char>) -> Seq<char>
    decreases items.len(),
{
    if items.len() == 0 {
        Seq::empty()
    } else if items.len() == 1 {
        pad + emit_string(items[0])
    } else {
        pad + emit_string(items[0]) + ","@ + emit_str_items(items.skip(1), pad)
    }
}

/// A string array: `[]` when empty, else one element per line.
pub open spec fn emit_str_list(items: Seq<Seq<char>>, pad: Seq<char>, close: Seq<char>) -> Seq<
    char,
> {
    if items.len() == 0 {
        "[]"@
    } else {
        "["@ + emit_str_items(items, pad) + close + "]"@
    }
}

/// A build or configure entry object.
pub open spec fn emit_cmd_entry(c: CmdModel) -> Seq<char> {
    "{"@ + pad_key() + emit_string("name"@) + ": "@ + emit_string(c.name) + ","@ + pad_key()
        + emit_string("command"@) + ": "@ + emit_string(c.command) + ","@ + pad_key()
        + emit_string("args"@) + ": "@ + emit_str_list(c.args, pad_arg(), pad_key()) + pad_elem()
        + "}"@
}

/// A run entry object: a command entry plus its `pre_build` flag.
pub open spec fn emit_run_entry(r: RunModel) -> Seq<char> {
    "{"@ + pad_key() + emit_string("name"@) + ": "@ + emit_string(r.name) + ","@ + pad_key()
        + emit_string("command"@) + ": "@ + emit_string(r.command) + ","@ + pad_key()
        + emit_string("args"@) + ": "@ + emit_str_list(r.args, pad_arg(), pad_key()) + ","@
        + pad_key() + emit_string("pre_build"@) + ": "@ + emit_bool(r.pre_build) + pad_elem()
        + "}"@
}

pub open spec fn emit_cmd_items(items: Seq<CmdModel>) -> Seq<char>
    decreases items.len(),
{
    if items.len() == 0 {
        Seq::empty()
    } else if items.len() == 1 {
        pad_elem() + emit_cmd_entry(items[0])
    } else {
        pad_elem() + emit_cmd_entry(items[0]) + ","@ + emit_cmd_items(items.skip(1))
    }
}

pub open spec fn emit_cmd_list(items: Seq<CmdModel>) -> Seq<char> {
    if items.len() == 0 {
        "[]"@
    } else {
        "["@ + emit_cmd_items(items) + pad_top() + "]"@
    }
}

pub open spec fn emit_run_items(items: Seq<RunModel>) -> Seq<char>
    decreases items.len(),
{
    if items.len() == 0 {
        Seq::empty()
    } else if items.len() == 1 {
        pad_elem() + emit_run_entry(items[0])
    } else {
        pad_elem() + emit_run_entry(items[0]) + ","@ + emit_run_items(items.skip(1))
    }
}

pub open spec fn emit_run_list(items: Seq<RunModel>) -> Seq<char> {
    if items.len() == 0 {
        "[]"@
    } else {
        "["@ + emit_run_items(items) + pad_top() + "]"@
    }
}

/// Lead-in plus `"key": ` of a top-level member.
pub open spec fn emit_member_lead(key: Seq<char>) -> Seq<char> {
    pad_top() + emit_string(key) + ": "@
}

/// The canonical text of a whole document.
pub open spec fn emit_doc(m: DocModel) -> Seq<char> {
    "{"@ + emit_member_lead("workspace"@) + emit_string(m.workspace) + ","@ + emit_member_lead(
        "build_targets"@,
    ) + emit_str_list(m.build_targets, pad_elem(), pad_top()) + ","@ + emit_member_lead(
        "current_build_target"@,
    ) + emit_string(m.current_build_target) + ","@ + emit_member_lead("builds"@) + emit_cmd_list(
        m.builds,
    ) + ","@ + emit_member_lead("runs"@) + emit_run_list(m.runs) + ","@ + emit_member_lead(
        "configurations"@,
    ) + emit_cmd_list(m.configurations) + "\n}"@
}


// ---------------------------------------------------------------------
// Parsing.
// ---------------------------------------------------------------------

/// JSON inter-token whitespace: exactly space, tab, newline, carriage
/// return.
pub open spec fn ws_char(c: char) -> bool {
    c == ' ' || c == '\t' || c == '\n' || c == '\r'
}

/// First index at or after `i` holding a non-whitespace character.
pub open spec fn skip_ws_from(s: Seq<char>, i: int) -> int
    decreases s.len() - i when 0 <= i <= s.len()
{
    if i < s.len() && ws_char(s[i]) {
        skip_ws_from(s, i + 1)
    } else {
        i
    }
}

pub proof fn lemma_skip_ws_from(s: Seq<char>, i: int, j: int)
    requires
        0 <= i <= j <= s.len(),
        forall|k: int| i <= k < j ==> ws_char(s[k]),
        j == s.len() || !ws_char(s[j]),
    ensures
        skip_ws_from(s, i) == j,
    decreases j - i,
{
    if i < j {
        lemma_skip_ws_from(s, i + 1, j);
    }
}

/// Hexadecimal digit value, or 16 for a non-digit.
pub open spec fn hex_val(c: char) -> int {
    if 48 <= c as u32 <= 57 {
        c as u32 - 48
    } else if 97 <= c as u32 <= 102 {
        c as u32 - 87
    } else if 65 <= c as u32 <= 70 {
        c as u32 - 55
    } else {
        16
    }
}

/// Value of the four hexadecimal digits at `i`.
pub open spec fn hex4_val(s: Seq<char>, i: int) -> int {
    hex_val(s[i]) * 4096 + hex_val(s[i + 1]) * 256 + hex_val(s[i + 2]) * 16 + hex_val(s[i + 3])
}

pub open spec fn is_hex4(s: Seq<char>, i: int) -> bool {
    hex_val(s[i]) < 16 && hex_val(s[i + 1]) < 16 && hex_val(s[i + 2]) < 16 && hex_val(s[i + 3])
        < 16
}

/// Expects `c` after optional whitespace; yields the index past it.
pub open spec fn parse_token(s: Seq<char>, i: int, c: char) -> Option<int> {
    let j = skip_ws_from(s, i);
    if j < s.len() && s[j] == c {
        Some(j + 1)
    } else {
        None
    }
}

/// After a member's value: a comma announces another member, a closing
/// brace ends the object.
pub open spec fn parse_more(s: Seq<char>, i: int) -> Option<(bool, int)> {
    let k = skip_ws_from(s, i);
    if k < s.len() && s[k] == ',' {
        Some((true, k + 1))
    } else if k < s.len() && s[k] == '}' {
        Some((false, k + 1))
    } else {
        None
    }
}

/// String body after the opening quote: `acc` plus the remaining
/// characters, and the index past the closing quote.  Escapes are the
/// standard JSON ones; `\uXXXX` may name any scalar value, an astral
/// character coming as a surrogate pair.
pub open spec fn parse_str_rest(s: Seq<char>, i: int, acc: Seq<char>) -> Option<(Seq<char>, int)>
    decreases s.len() - i,
    when 0 <= i <= s.len()
{
    if i >= s.len() {
        None
    } else if s[i] == '"' {
        Some((acc, i + 1))
    } else if s[i] == '\\' {
        if i + 1 >= s.len() {
            None
        } else {
            let e = s[i + 1];
            if e == '"' {
                parse_str_rest(s, i + 2, acc.push('"'))
            } else if e == '\\' {
                parse_str_rest(s, i + 2, acc.push('\\'))
            } else if e == '/' {
                parse_str_rest(s, i + 2, acc.push('/'))
            } else if e == 'n' {
                parse_str_rest(s, i + 2, acc.push('\n'))
            } else if e == 't' {
                parse_str_rest(s, i + 2, acc.push('\t'))
            } else if e == 'r' {
                parse_str_rest(s, i + 2, acc.push('\r'))
            } else if e == 'b' {
                parse_str_rest(s, i + 2, acc.push('\u{0008}'))
            } else if e == 'f' {
                parse_str_rest(s, i + 2, acc.push('\u{000C}'))
            } else if e == 'u' {
                if i + 5 >= s.len() {
                    None
                } else if !is_hex4(s, i + 2) {
                    None
                } else {
                    let v = hex4_val(s, i + 2);
                    if v < 0xD800 || v >= 0xE000 {
                        parse_str_rest(s, i + 6, acc.push((v as u32) as char))
                    } else if v < 0xDC00 {
                        if i + 11 >= s.len() {
                            None
                        } else if s[i + 6] == '\\' && s[i + 7] == 'u' && is_hex4(s, i + 8) {
                            let w = hex4_val(s, i + 8);
                            if 0xDC00 <= w < 0xE000 {
                                parse_str_rest(
                                    s,
                                    i + 12,
                                    acc.push(
                                        ((0x10000 + (v - 0xD800) * 0x400 + (w - 0xDC00)) as u32)
                                            as char,
                                    ),
                                )
                            } else {
                                None
                            }
                        } else {
                            None
                        }
                    } else {
                        None
                    }
                }
            } else {
                None
            }
        }
    } else if (s[i] as u32) < 32 {
        None
    } else {
        parse_str_rest(s, i + 1, acc.push(s[i]))
    }
}

/// A JSON string after optional whitespace.
pub open spec fn parse_string(s: Seq<char>, i: int) -> Option<(Seq<char>, int)> {
    let j = skip_ws_from(s, i);
    if j < s.len() && s[j] == '"' {
        parse_str_rest(s, j + 1, Seq::empty())
    } else {
        None
    }
}

/// `true` or `false` after optional whitespace.
pub open spec fn parse_bool(s: Seq<char>, i: int) -> Option<(bool, int)> {
    let j = skip_ws_from(s, i);
    if j + 4 <= s.len() && s[j] == 't' && s[j + 1] == 'r' && s[j + 2] == 'u' && s[j + 3] == 'e' {
        Some((true, j + 4))
    } else if j + 5 <= s.len() && s[j] == 'f' && s[j + 1] == 'a' && s[j + 2] == 'l' && s[j + 3]
        == 's' && s[j + 4] == 'e' {
        Some((false, j + 5))
    } else {
        None
    }
}

pub proof fn lemma_skip_ws_bounds(s: Seq<char>, i: int)
    requires
        0 <= i <= s.len(),
    ensures
        i <= skip_ws_from(s, i) <= s.len(),
    decreases s.len() - i,
{
    if i < s.len() && ws_char(s[i]) {
        lemma_skip_ws_bounds(s, i + 1);
    }
}

pub proof fn lemma_parse_token_bounds(s: Seq<char>, i: int, c: char)
    requires
        0 <= i <= s.len(),
    ensures
        parse_token(s, i, c) matches Some(j) ==> i < j <= s.len(),
{
    lemma_skip_ws_bounds(s, i);
}

pub proof fn lemma_parse_more_bounds(s: Seq<char>, i: int)
    requires
        0 <= i <= s.len(),
    ensures
        parse_more(s, i) matches Some(p) ==> i < p.1 <= s.len(),
{
    lemma_skip_ws_bounds(s, i);
}

pub proof fn lemma_parse_str_rest_bounds(s: Seq<char>, i: int, acc: Seq<char>)
    requires
        0 <= i <= s.len(),
    ensures
        parse_str_rest(s, i, acc) matches Some((v, j)) ==> i < j <= s.len(),
    decreases s.len() - i,
{
    if i < s.len() && s[i] != '"' {
        if s[i] == '\\' && i + 1 < s.len() {
            let e = s[i + 1];
            if e == 'u' {
                if i + 5 < s.len() && is_hex4(s, i + 2) {
                    let v = hex4_val(s, i + 2);
                    if v < 0xD800 || v >= 0xE000 {
                        lemma_parse_str_rest_bounds(s, i + 6, acc.push((v as u32) as char));
                    } else if v < 0xDC00 && i + 11 < s.len() && s[i + 6] == '\\' && s[i + 7]
                        == 'u' && is_hex4(s, i + 8) {
                        let w = hex4_val(s, i + 8);
                        lemma_parse_str_rest_bounds(
                            s,
                            i + 12,
                            acc.push(
                                ((0x10000 + (v - 0xD800) * 0x400 + (w - 0xDC00)) as u32) as char,
                            ),
                        );
                    }
                }
            } else {
                lemma_parse_str_rest_bounds(s, i + 2, acc.push('"'));
                lemma_parse_str_rest_bounds(s, i + 2, acc.push('\\'));
                lemma_parse_str_rest_bounds(s, i + 2, acc.push('/'));
                lemma_parse_str_rest_bounds(s, i + 2, acc.push('\n'));
                lemma_parse_str_rest_bounds(s, i + 2, acc.push('\t'));
                lemma_parse_str_rest_bounds(s, i + 2, acc.push('\r'));
                lemma_parse_str_rest_bounds(s, i + 2, acc.push('\u{0008}'));
                lemma_parse_str_rest_bounds(s, i + 2, acc.push('\u{000C}'));
            }
        } else if (s[i] as u32) >= 32 {
            lemma_parse_str_rest_bounds(s, i + 1, acc.push(s[i]));
        }
    }
}

pub proof fn lemma_parse_string_bounds(s: Seq<char>, i: int)
    requires
        0 <= i <= s.len(),
    ensures
        parse_string(s, i) matches Some((v, j)) ==> i < j <= s.len(),
{
    lemma_skip_ws_bounds(s, i);
    let k = skip_ws_from(s, i);
    if k < s.len() && s[k] == '"' {
        lemma_parse_str_rest_bounds(s, k + 1, Seq::empty());
    }
}

pub proof fn lemma_parse_bool_bounds(s: Seq<char>, i: int)
    requires
        0 <= i <= s.len(),
    ensures
        parse_bool(s, i) matches Some((v, j)) ==> i < j <= s.len(),
{
    lemma_skip_ws_bounds(s, i);
}

/// String array elements from after the opening bracket (or a separating
/// comma): the collected elements and the index past the closing bracket.
pub open spec fn parse_str_elems(s: Seq<char>, i: int, acc: Seq<Seq<char>>) -> Option<
    (Seq<Seq<char>>, int),
>
    decreases s.len() - i,
    when 0 <= i <= s.len()
    via parse_str_elems_dec
{
    match parse_string(s, i) {
        None => None,
        Some((v, j)) => {
            let k = skip_ws_from(s, j);
            if k < s.len() && s[k] == ',' {
                parse_str_elems(s, k + 1, acc.push(v))
            } else if k < s.len() && s[k] == ']' {
                Some((acc.push(v), k + 1))
            } else {
                None
            }
        },
    }
}

#[via_fn]
proof fn parse_str_elems_dec(s: Seq<char>, i: int, acc: Seq<Seq<char>>) {
    lemma_parse_string_bounds(s, i);
    if let Some((v, j)) = parse_string(s, i) {
        lemma_skip_ws_bounds(s, j);
    }
}

/// A whole string array after optional whitespace.
pub open spec fn parse_str_array(s: Seq<char>, i: int) -> Option<(Seq<Seq<char>>, int)> {
    match parse_token(s, i, '[') {
        None => None,
        Some(j) => {
            let k = skip_ws_from(s, j);
            if k < s.len() && s[k] == ']' {
                Some((Seq::empty(), k + 1))
            } else {
                parse_str_elems(s, j, Seq::empty())
            }
        },
    }
}

pub proof fn lemma_parse_str_elems_bounds(s: Seq<char>, i: int, acc: Seq<Seq<char>>)
    requires
        0 <= i <= s.len(),
    ensures
        parse_str_elems(s, i, acc) matches Some((v, j)) ==> i < j <= s.len(),
    decreases s.len() - i,
{
    lemma_parse_string_bounds(s, i);
    if let Some((v, j)) = parse_string(s, i) {
        lemma_skip_ws_bounds(s, j);
        let k = skip_ws_from(s, j);
        if k < s.len() && s[k] == ',' {
            lemma_parse_str_elems_bounds(s, k + 1, acc.push(v));
        }
    }
}

pub proof fn lemma_parse_str_array_bounds(s: Seq<char>, i: int)
    requires
        0 <= i <= s.len(),
    ensures
        parse_str_array(s, i) matches Some((v, j)) ==> i < j <= s.len(),
{
    lemma_parse_token_bounds(s, i, '[');
    if let Some(j) = parse_token(s, i, '[') {
        lemma_skip_ws_bounds(s, j);
        lemma_parse_str_elems_bounds(s, j, Seq::empty());
    }
}

/// The members of a build/configure entry gathered so far.
pub struct CmdParts {
    pub name: Option<Seq<char>>,
    pub command: Option<Seq<char>>,
    pub args: Option<Seq<Seq<char>>>,
}

pub open spec fn cmd_parts_empty() -> CmdParts {
    CmdParts { name: None, command: None, args: None }
}

/// The members of a run entry gathered so far.
pub struct RunParts {
    pub name: Option<Seq<char>>,
    pub command: Option<Seq<char>>,
    pub args: Option<Seq<Seq<char>>>,
    pub pre_build: Option<bool>,
}

pub open spec fn run_parts_empty() -> RunParts {
    RunParts { name: None, command: None, args: None, pre_build: None }
}

/// The members of the document gathered so far.
pub struct DocParts {
    pub workspace: Option<Seq<char>>,
    pub build_targets: Option<Seq<Seq<char>>>,
    pub current_build_target: Option<Seq<char>>,
    pub builds: Option<Seq<CmdModel>>,
    pub runs: Option<Seq<RunModel>>,
    pub configurations: Option<Seq<CmdModel>>,
}

pub open spec fn doc_parts_empty() -> DocParts {
    DocParts {
        workspace: None,
        build_targets: None,
        current_build_target: None,
        builds: None,
        runs: None,
        configurations: None,
    }
}

/// Members of a build/configure entry, in any order, each at most once,
/// from after the opening brace up to and including the closing brace.
pub open spec fn parse_cmd_members(s: Seq<char>, i: int, acc: CmdParts) -> Option<(CmdParts, int)>
    decreases s.len() - i,
    when 0 <= i <= s.len()
    via parse_cmd_members_dec
{
    match parse_string(s, i) {
        None => None,
        Some((key, j1)) => match parse_token(s, j1, ':') {
            None => None,
            Some(j2) => {
                if key == "name"@ {
                    if acc.name is Some {
                        None
                    } else {
                        match parse_string(s, j2) {
                            None => None,
                            Some((v, j3)) => match parse_more(s, j3) {
                                None => None,
                                Some((more, j4)) => {
                                    let acc2 = CmdParts { name: Some(v), ..acc };
                                    if more {
                                        parse_cmd_members(s, j4, acc2)
                                    } else {
                                        Some((acc2, j4))
                                    }
                                },
                            },
                        }
                    }
                } else if key == "command"@ {
                    if acc.command is Some {
                        None
                    } else {
                        match parse_string(s, j2) {
                            None => None,
                            Some((v, j3)) => match parse_more(s, j3) {
                                None => None,
                                Some((more, j4)) => {
                                    let acc2 = CmdParts { command: Some(v), ..acc };
                                    if more {
                                        parse_cmd_members(s, j4, acc2)
                                    } else {
                                        Some((acc2, j4))
                                    }
                                },
                            },
                        }
                    }
                } else if key == "args"@ {
                    if acc.args is Some {
                        None
                    } else {
                        match parse_str_array(s, j2) {
                            None => None,
                            Some((v, j3)) => match parse_more(s, j3) {
                                None => None,
                                Some((more, j4)) => {
                                    let acc2 = CmdParts { args: Some(v), ..acc };
                                    if more {
                                        parse_cmd_members(s, j4, acc2)
                                    } else {
                                        Some((acc2, j4))
                                    }
                                },
                            },
                        }
                    }
                } else {
                    None
                }
            },
        },
    }
}

#[via_fn]
proof fn parse_cmd_members_dec(s: Seq<char>, i: int, acc: CmdParts) {
    lemma_parse_string_bounds(s, i);
    if let Some((key, j1)) = parse_string(s, i) {
        lemma_parse_token_bounds(s, j1, ':');
        if let Some(j2) = parse_token(s, j1, ':') {
            lemma_parse_string_bounds(s, j2);
            if let Some((v, j3)) = parse_string(s, j2) {
                lemma_parse_more_bounds(s, j3);
            }
            lemma_parse_str_array_bounds(s, j2);
            if let Some((v, j3)) = parse_str_array(s, j2) {
                lemma_parse_more_bounds(s, j3);
            }
        }
    }
}

pub proof fn lemma_parse_cmd_members_bounds(s: Seq<char>, i: int, acc: CmdParts)
    requires
        0 <= i <= s.len(),
    ensures
        parse_cmd_members(s, i, acc) matches Some((p, j)) ==> i < j <= s.len(),
    decreases s.len() - i,
{
    lemma_parse_string_bounds(s, i);
    if let Some((key, j1)) = parse_string(s, i) {
        lemma_parse_token_bounds(s, j1, ':');
        if let Some(j2) = parse_token(s, j1, ':') {
            lemma_parse_string_bounds(s, j2);
            if let Some((v, j3)) = parse_string(s, j2) {
                lemma_parse_more_bounds(s, j3);
                if let Some((more, j4)) = parse_more(s, j3) {
                    lemma_parse_cmd_members_bounds(s, j4, CmdParts { name: Some(v), ..acc });
                    lemma_parse_cmd_members_bounds(s, j4, CmdParts { command: Some(v), ..acc });
                }
            }
            lemma_parse_str_array_bounds(s, j2);
            if let Some((v, j3)) = parse_str_array(s, j2) {
                lemma_parse_more_bounds(s, j3);
                if let Some((more, j4)) = parse_more(s, j3) {
                    lemma_parse_cmd_members_bounds(s, j4, CmdParts { args: Some(v), ..acc });
                }
            }
        }
    }
}

/// A build/configure entry object: brace, its three members in any order,
/// brace.
pub open spec fn parse_cmd_entry(s: Seq<char>, i: int) -> Option<(CmdModel, int)> {
    match parse_token(s, i, '{') {
        None => None,
        Some(j0) => match parse_cmd_members(s, j0, cmd_parts_empty()) {
            None => None,
            Some((p, j)) => {
                if p.name is Some && p.command is Some && p.args is Some {
                    Some(
                        (
                            CmdModel {
                                name: p.name.unwrap(),
                                command: p.command.unwrap(),
                                args: p.args.unwrap(),
                            },
                            j,
                        ),
                    )
                } else {
                    None
                }
            },
        },
    }
}

pub proof fn lemma_parse_cmd_entry_bounds(s: Seq<char>, i: int)
    requires
        0 <= i <= s.len(),
    ensures
        parse_cmd_entry(s, i) matches Some((v, j)) ==> i < j <= s.len(),
{
    lemma_parse_token_bounds(s, i, '{');
    if let Some(j0) = parse_token(s, i, '{') {
        lemma_parse_cmd_members_bounds(s, j0, cmd_parts_empty());
    }
}

/// Members of a run entry, in any order, each at most once.
pub open spec fn parse_run_members(s: Seq<char>, i: int, acc: RunParts) -> Option<(RunParts, int)>
    decreases s.len() - i,
    when 0 <= i <= s.len()
    via parse_run_members_dec
{
    match parse_string(s, i) {
        None => None,
        Some((key, j1)) => match parse_token(s, j1, ':') {
            None => None,
            Some(j2) => {
                if key == "name"@ {
                    if acc.name is Some {
                        None
                    } else {
                        match parse_string(s, j2) {
                            None => None,
                            Some((v, j3)) => match parse_more(s, j3) {
                                None => None,
                                Some((more, j4)) => {
                                    let acc2 = RunParts { name: Some(v), ..acc };
                                    if more {
                                        parse_run_members(s, j4, acc2)
                                    } else {
                                        Some((acc2, j4))
                                    }
                                },
                            },
                        }
                    }
                } else if key == "command"@ {
                    if acc.command is Some {
                        None
                    } else {
                        match parse_string(s, j2) {
                            None => None,
                            Some((v, j3)) => match parse_more(s, j3) {
                                None => None,
                                Some((more, j4)) => {
                                    let acc2 = RunParts { command: Some(v), ..acc };
                                    if more {
                                        parse_run_members(s, j4, acc2)
                                    } else {
                                        Some((acc2, j4))
                                    }
                                },
                            },
                        }
                    }
                } else if key == "args"@ {
                    if acc.args is Some {
                        None
                    } else {
                        match parse_str_array(s, j2) {
                            None => None,
                            Some((v, j3)) => match parse_more(s, j3) {
                                None => None,
                                Some((more, j4)) => {
                                    let acc2 = RunParts { args: Some(v), ..acc };
                                    if more {
                                        parse_run_members(s, j4, acc2)
                                    } else {
                                        Some((acc2, j4))
                                    }
                                },
                            },
                        }
                    }
                } else if key == "pre_build"@ {
                    if acc.pre_build is Some {
                        None
                    } else {
                        match parse_bool(s, j2) {
                            None => None,
                            Some((v, j3)) => match parse_more(s, j3) {
                                None => None,
                                Some((more, j4)) => {
                                    let acc2 = RunParts { pre_build: Some(v), ..acc };
                                    if more {
                                        parse_run_members(s, j4, acc2)
                                    } else {
                                        Some((acc2, j4))
                                    }
                                },
                            },
                        }
                    }
                } else {
                    None
                }
            },
        },
    }
}

#[via_fn]
proof fn parse_run_members_dec(s: Seq<char>, i: int, acc: RunParts) {
    lemma_parse_string_bounds(s, i);
    if let Some((key, j1)) = parse_string(s, i) {
        lemma_parse_token_bounds(s, j1, ':');
        if let Some(j2) = parse_token(s, j1, ':') {
            lemma_parse_string_bounds(s, j2);
            if let Some((v, j3)) = parse_string(s, j2) {
                lemma_parse_more_bounds(s, j3);
            }
            lemma_parse_str_array_bounds(s, j2);
            if let Some((v, j3)) = parse_str_array(s, j2) {
                lemma_parse_more_bounds(s, j3);
            }
            lemma_parse_bool_bounds(s, j2);
            if let Some((v, j3)) = parse_bool(s, j2) {
                lemma_parse_more_bounds(s, j3);
            }
        }
    }
}

pub proof fn lemma_parse_run_members_bounds(s: Seq<char>, i: int, acc: RunParts)
    requires
        0 <= i <= s.len(),
    ensures
        parse_run_members(s, i, acc) matches Some((p, j)) ==> i < j <= s.len(),
    decreases s.len() - i,
{
    lemma_parse_string_bounds(s, i);
    if let Some((key, j1)) = parse_string(s, i) {
        lemma_parse_token_bounds(s, j1, ':');
        if let Some(j2) = parse_token(s, j1, ':') {
            lemma_parse_string_bounds(s, j2);
            if let Some((v, j3)) = parse_string(s, j2) {
                lemma_parse_more_bounds(s, j3);
                if let Some((more, j4)) = parse_more(s, j3) {
                    lemma_parse_run_members_bounds(s, j4, RunParts { name: Some(v), ..acc });
                    lemma_parse_run_members_bounds(s, j4, RunParts { command: Some(v), ..acc });
                }
            }
            lemma_parse_str_array_bounds(s, j2);
            if let Some((v, j3)) = parse_str_array(s, j2) {
                lemma_parse_more_bounds(s, j3);
                if let Some((more, j4)) = parse_more(s, j3) {
                    lemma_parse_run_members_bounds(s, j4, RunParts { args: Some(v), ..acc });
                }
            }
            lemma_parse_bool_bounds(s, j2);
            if let Some((v, j3)) = parse_bool(s, j2) {
                lemma_parse_more_bounds(s, j3);
                if let Some((more, j4)) = parse_more(s, j3) {
                    lemma_parse_run_members_bounds(s, j4, RunParts { pre_build: Some(v), ..acc });
                }
            }
        }
    }
}

/// A run entry object: brace, its four members in any order, brace.
pub open spec fn parse_run_entry(s: Seq<char>, i: int) -> Option<(RunModel, int)> {
    match parse_token(s, i, '{') {
        None => None,
        Some(j0) => match parse_run_members(s, j0, run_parts_empty()) {
            None => None,
            Some((p, j)) => {
                if p.name is Some && p.command is Some && p.args is Some && p.pre_build is Some {
                    Some(
                        (
                            RunModel {
                                name: p.name.unwrap(),
                                command: p.command.unwrap(),
                                args: p.args.unwrap(),
                                pre_build: p.pre_build.unwrap(),
                            },
                            j,
                        ),
                    )
                } else {
                    None
                }
            },
        },
    }
}

pub proof fn lemma_parse_run_entry_bounds(s: Seq<char>, i: int)
    requires
        0 <= i <= s.len(),
    ensures
        parse_run_entry(s, i) matches Some((v, j)) ==> i < j <= s.len(),
{
    lemma_parse_token_bounds(s, i, '{');
    if let Some(j0) = parse_token(s, i, '{') {
        lemma_parse_run_members_bounds(s, j0, run_parts_empty());
    }
}

/// Build/configure entries from after the opening bracket.
pub open spec fn parse_cmd_elems(s: Seq<char>, i: int, acc: Seq<CmdModel>) -> Option<
    (Seq<CmdModel>, int),
>
    decreases s.len() - i,
    when 0 <= i <= s.len()
    via parse_cmd_elems_dec
{
    match parse_cmd_entry(s, i) {
        None => None,
        Some((e, j)) => {
            let k = skip_ws_from(s, j);
            if k < s.len() && s[k] == ',' {
                parse_cmd_elems(s, k + 1, acc.push(e))
            } else if k < s.len() && s[k] == ']' {
                Some((acc.push(e), k + 1))
            } else {
                None
            }
        },
    }
}

#[via_fn]
proof fn parse_cmd_elems_dec(s: Seq<char>, i: int, acc: Seq<CmdModel>) {
    lemma_parse_cmd_entry_bounds(s, i);
    if let Some((e, j)) = parse_cmd_entry(s, i) {
        lemma_skip_ws_bounds(s, j);
    }
}

/// Run entries from after the opening bracket.
pub open spec fn parse_run_elems(s: Seq<char>, i: int, acc: Seq<RunModel>) -> Option<
    (Seq<RunModel>, int),
>
    decreases s.len() - i,
    when 0 <= i <= s.len()
    via parse_run_elems_dec
{
    match parse_run_entry(s, i) {
        None => None,
        Some((e, j)) => {
            let k = skip_ws_from(s, j);
            if k < s.len() && s[k] == ',' {
                parse_run_elems(s, k + 1, acc.push(e))
            } else if k < s.len() && s[k] == ']' {
                Some((acc.push(e), k + 1))
            } else {
                None
            }
        },
    }
}

#[via_fn]
proof fn parse_run_elems_dec(s: Seq<char>, i: int, acc: Seq<RunModel>) {
    lemma_parse_run_entry_bounds(s, i);
    if let Some((e, j)) = parse_run_entry(s, i) {
        lemma_skip_ws_bounds(s, j);
    }
}

pub open spec fn parse_cmd_array(s: Seq<char>, i: int) -> Option<(Seq<CmdModel>, int)> {
    match parse_token(s, i, '[') {
        None => None,
        Some(j) => {
            let k = skip_ws_from(s, j);
            if k < s.len() && s[k] == ']' {
                Some((Seq::empty(), k + 1))
            } else {
                parse_cmd_elems(s, j, Seq::empty())
            }
        },
    }
}

pub open spec fn parse_run_array(s: Seq<char>, i: int) -> Option<(Seq<RunModel>, int)> {
    match parse_token(s, i, '[') {
        None => None,
        Some(j) => {
            let k = skip_ws_from(s, j);
            if k < s.len() && s[k] == ']' {
                Some((Seq::empty(), k + 1))
            } else {
                parse_run_elems(s, j, Seq::empty())
            }
        },
    }
}

pub proof fn lemma_parse_cmd_elems_bounds(s: Seq<char>, i: int, acc: Seq<CmdModel>)
    requires
        0 <= i <= s.len(),
    ensures
        parse_cmd_elems(s, i, acc) matches Some((v, j)) ==> i < j <= s.len(),
    decreases s.len() - i,
{
    lemma_parse_cmd_entry_bounds(s, i);
    if let Some((e, j)) = parse_cmd_entry(s, i) {
        lemma_skip_ws_bounds(s, j);
        let k = skip_ws_from(s, j);
        if k < s.len() && s[k] == ',' {
            lemma_parse_cmd_elems_bounds(s, k + 1, acc.push(e));
        }
    }
}

pub proof fn lemma_parse_run_elems_bounds(s: Seq<char>, i: int, acc: Seq<RunModel>)
    requires
        0 <= i <= s.len(),
    ensures
        parse_run_elems(s, i, acc) matches Some((v, j)) ==> i < j <= s.len(),
    decreases s.len() - i,
{
    lemma_parse_run_entry_bounds(s, i);
    if let Some((e, j)) = parse_run_entry(s, i) {
        lemma_skip_ws_bounds(s, j);
        let k = skip_ws_from(s, j);
        if k < s.len() && s[k] == ',' {
            lemma_parse_run_elems_bounds(s, k + 1, acc.push(e));
        }
    }
}

pub proof fn lemma_parse_cmd_array_bounds(s: Seq<char>, i: int)
    requires
        0 <= i <= s.len(),
    ensures
        parse_cmd_array(s, i) matches Some((v, j)) ==> i < j <= s.len(),
{
    lemma_parse_token_bounds(s, i, '[');
    if let Some(j) = parse_token(s, i, '[') {
        lemma_skip_ws_bounds(s, j);
        lemma_parse_cmd_elems_bounds(s, j, Seq::empty());
    }
}

pub proof fn lemma_parse_run_array_bounds(s: Seq<char>, i: int)
    requires
        0 <= i <= s.len(),
    ensures
        parse_run_array(s, i) matches Some((v, j)) ==> i < j <= s.len(),
{
    lemma_parse_token_bounds(s, i, '[');
    if let Some(j) = parse_token(s, i, '[') {
        lemma_skip_ws_bounds(s, j);
        lemma_parse_run_elems_bounds(s, j, Seq::empty());
    }
}

/// The document's members, in any order, each at most once.
pub open spec fn parse_doc_members(s: Seq<char>, i: int, acc: DocParts) -> Option<(DocParts, int)>
    decreases s.len() - i,
    when 0 <= i <= s.len()
    via parse_doc_members_dec
{
    match parse_string(s, i) {
        None => None,
        Some((key, j1)) => match parse_token(s, j1, ':') {
            None => None,
            Some(j2) => {
                if key == "workspace"@ {
                    if acc.workspace is Some {
                        None
                    } else {
                        match parse_string(s, j2) {
                            None => None,
                            Some((v, j3)) => match parse_more(s, j3) {
                                None => None,
                                Some((more, j4)) => {
                                    let acc2 = DocParts { workspace: Some(v), ..acc };
                                    if more {
                                        parse_doc_members(s, j4, acc2)
                                    } else {
                                        Some((acc2, j4))
                                    }
                                },
                            },
                        }
                    }
                } else if key == "build_targets"@ {
                    if acc.build_targets is Some {
                        None
                    } else {
                        match parse_str_array(s, j2) {
                            None => None,
                            Some((v, j3)) => match parse_more(s, j3) {
                                None => None,
                                Some((more, j4)) => {
                                    let acc2 = DocParts { build_targets: Some(v), ..acc };
                                    if more {
                                        parse_doc_members(s, j4, acc2)
                                    } else {
                                        Some((acc2, j4))
                                    }
                                },
                            },
                        }
                    }
                } else if key == "current_build_target"@ {
                    if acc.current_build_target is Some {
                        None
                    } else {
                        match parse_string(s, j2) {
                            None => None,
                            Some((v, j3)) => match parse_more(s, j3) {
                                None => None,
                                Some((more, j4)) => {
                                    let acc2 = DocParts { current_build_target: Some(v), ..acc };
                                    if more {
                                        parse_doc_members(s, j4, acc2)
                                    } else {
                                        Some((acc2, j4))
                                    }
                                },
                            },
                        }
                    }
                } else if key == "builds"@ {
                    if acc.builds is Some {
                        None
                    } else {
                        match parse_cmd_array(s, j2) {
                            None => None,
                            Some((v, j3)) => match parse_more(s, j3) {
                                None => None,
                                Some((more, j4)) => {
                                    let acc2 = DocParts { builds: Some(v), ..acc };
                                    if more {
                                        parse_doc_members(s, j4, acc2)
                                    } else {
                                        Some((acc2, j4))
                                    }
                                },
                            },
                        }
                    }
                } else if key == "runs"@ {
                    if acc.runs is Some {
                        None
                    } else {
                        match parse_run_array(s, j2) {
                            None => None,
                            Some((v, j3)) => match parse_more(s, j3) {
                                None => None,
                                Some((more, j4)) => {
                                    let acc2 = DocParts { runs: Some(v), ..acc };
                                    if more {
                                        parse_doc_members(s, j4, acc2)
                                    } else {
                                        Some((acc2, j4))
                                    }
                                },
                            },
                        }
                    }
                } else if key == "configurations"@ {
                    if acc.configurations is Some {
                        None
                    } else {
                        match parse_cmd_array(s, j2) {
                            None => None,
                            Some((v, j3)) => match parse_more(s, j3) {
                                None => None,
                                Some((more, j4)) => {
                                    let acc2 = DocParts { configurations: Some(v), ..acc };
                                    if more {
                                        parse_doc_members(s, j4, acc2)
                                    } else {
                                        Some((acc2, j4))
                                    }
                                },
                            },
                        }
                    }
                } else {
                    None
                }
            },
        },
    }
}

#[via_fn]
proof fn parse_doc_members_dec(s: Seq<char>, i: int, acc: DocParts) {
    lemma_parse_string_bounds(s, i);
    if let Some((key, j1)) = parse_string(s, i) {
        lemma_parse_token_bounds(s, j1, ':');
        if let Some(j2) = parse_token(s, j1, ':') {
            lemma_parse_string_bounds(s, j2);
            if let Some((v, j3)) = parse_string(s, j2) {
                lemma_parse_more_bounds(s, j3);
            }
            lemma_parse_str_array_bounds(s, j2);
            if let Some((v, j3)) = parse_str_array(s, j2) {
                lemma_parse_more_bounds(s, j3);
            }
            lemma_parse_cmd_array_bounds(s, j2);
            if let Some((v, j3)) = parse_cmd_array(s, j2) {
                lemma_parse_more_bounds(s, j3);
            }
            lemma_parse_run_array_bounds(s, j2);
            if let Some((v, j3)) = parse_run_array(s, j2) {
                lemma_parse_more_bounds(s, j3);
            }
        }
    }
}

/// A whole document object: brace, its six members in any order, brace.
pub open spec fn parse_doc(s: Seq<char>, i: int) -> Option<(DocModel, int)> {
    match parse_token(s, i, '{') {
        None => None,
        Some(j0) => match parse_doc_members(s, j0, doc_parts_empty()) {
            None => None,
            Some((p, j)) => {
                if p.workspace is Some && p.build_targets is Some && p.current_build_target
                    is Some && p.builds is Some && p.runs is Some && p.configurations is Some {
                    Some(
                        (
                            DocModel {
                                workspace: p.workspace.unwrap(),
                                build_targets: p.build_targets.unwrap(),
                                current_build_target: p.current_build_target.unwrap(),
                                builds: p.builds.unwrap(),
                                runs: p.runs.unwrap(),
                                configurations: p.configurations.unwrap(),
                            },
                            j,
                        ),
                    )
                } else {
                    None
                }
            },
        },
    }
}

/// How a document reads: the parsed object with nothing but whitespace
/// after it, or nothing.
pub open spec fn load_spec(s: Seq<char>) -> Option<DocModel> {
    match parse_doc(s, 0) {
        None => None,
        Some((m, j)) => {
            if 0 <= j <= s.len() && skip_ws_from(s, j) == s.len() {
                Some(m)
            } else {
                None
            }
        },
    }
}

// ---------------------------------------------------------------------
// Executable emitter.
// ---------------------------------------------------------------------

/// Relies on `String::push`: appends exactly the one given character.
#[verifier::external_body]
fn push_char(s: &mut String, c: char)
    ensures
        final(s)@ == old(s)@.push(c),
{
    s.push(c);
}

fn hexd(x: u32) -> (c: char)
    requires
        x < 16,
    ensures
        c == hex_digit(x as int),
{
    if x < 10 {
        ((48 + x) as u8) as char
    } else {
        ((87 + x) as u8) as char
    }
}

#[verifier::rlimit(100)]
proof fn lemma_emit_str_body_snoc(t: Seq<char>, c: char)
    ensures
        emit_str_body(t.push(c)) == emit_str_body(t) + escape_char(c),
    decreases t.len(),
{
    if t.len() == 0 {
        assert(t.push(c)[0] == c);
        assert(t.push(c).skip(1) =~= Seq::<char>::empty());
        assert(escape_char(c) + emit_str_body(Seq::empty()) =~= escape_char(c));
        assert(emit_str_body(t) + escape_char(c) =~= escape_char(c));
    } else {
        assert(t.push(c)[0] == t[0]);
        assert(t.push(c).skip(1) =~= t.skip(1).push(c));
        lemma_emit_str_body_snoc(t.skip(1), c);
        assert(emit_str_body(t.push(c)) =~= emit_str_body(t) + escape_char(c));
    }
}

fn wstr_body(out: &mut String, v: &str, n: usize)
    requires
        n == v@.len(),
    ensures
        final(out)@ == old(out)@ + emit_str_body(v@),
{
    let ghost pre = out@;
    let mut i: usize = 0;
    proof {
        assert(v@.subrange(0, 0) =~= Seq::<char>::empty());
        assert(out@ =~= pre + emit_str_body(v@.subrange(0, 0)));
    }
    while i < n
        invariant
            i <= n,
            n == v@.len(),
            out@ == pre + emit_str_body(v@.subrange(0, i as int)),
        decreases n - i,
    {
        let ghost t = v@.subrange(0, i as int);
        let c = v.get_char(i);
        if c == '"' {
            out.append("\\\"");
        } else if c == '\\' {
            out.append("\\\\");
        } else if (c as u32) < 32 {
            out.append("\\u00");
            let x = c as u32;
            push_char(out, hexd(x / 16));
            push_char(out, hexd(x % 16));
            proof {
                assert(out@ =~= pre + emit_str_body(t) + escape_char(c));
            }
        } else {
            push_char(out, c);
            proof {
                assert(out@ =~= pre + emit_str_body(t) + escape_char(c));
            }
        }
        proof {
            assert(out@ == pre + emit_str_body(t) + escape_char(c));
            assert(v@.subrange(0, i as int + 1) =~= t.push(c));
            lemma_emit_str_body_snoc(t, c);
        }
        i = i + 1;
    }
    proof {
        assert(v@.subrange(0, n as int) =~= v@);
    }
}

fn wstring(out: &mut String, v: &str)
    ensures
        final(out)@ == old(out)@ + emit_string(v@),
{
    let ghost pre = out@;
    out.append("\"");
    let n = v.unicode_len();
    wstr_body(out, v, n);
    out.append("\"");
    proof {
        assert(out@ =~= pre + emit_string(v@));
    }
}

fn wbool(out: &mut String, b: bool)
    ensures
        final(out)@ == old(out)@ + emit_bool(b),
{
    if b {
        out.append("true");
    } else {
        out.append("false");
    }
}

#[verifier::rlimit(100)]
proof fn lemma_emit_str_items_snoc(t: Seq<Seq<char>>, x: Seq<char>, pad: Seq<char>)
    ensures
        emit_str_items(t.push(x), pad) == (if t.len() == 0 {
            pad + emit_string(x)
        } else {
            emit_str_items(t, pad) + ","@ + (pad + emit_string(x))
        }),
    decreases t.len(),
{
    if t.len() == 0 {
        assert(t.push(x)[0] == x);
    } else if t.len() == 1 {
        assert(t.push(x)[0] == t[0]);
        assert(t.push(x).skip(1) =~= seq![x]);
        assert(emit_str_items(seq![x], pad) == pad + emit_string(x));
        assert(emit_str_items(t.push(x), pad) =~= emit_str_items(t, pad) + ","@ + (pad
            + emit_string(x)));
    } else {
        assert(t.push(x)[0] == t[0]);
        assert(t.push(x).skip(1) =~= t.skip(1).push(x));
        lemma_emit_str_items_snoc(t.skip(1), x, pad);
        assert(emit_str_items(t.push(x), pad) =~= emit_str_items(t, pad) + ","@ + (pad
            + emit_string(x)));
    }
}

fn wstr_items(out: &mut String, v: &Vec<String>, pad: &str)
    requires
        v.len() >= 1,
    ensures
        final(out)@ == old(out)@ + emit_str_items(v.deep_view(), pad@),
{
    let ghost pre = out@;
    let mut i: usize = 0;
    while i < v.len()
        invariant
            i <= v.len(),
            i == 0 ==> out@ == pre,
            i >= 1 ==> out@ == pre + emit_str_items(v.deep_view().subrange(0, i as int), pad@),
        decreases v.len() - i,
    {
        let ghost t = v.deep_view().subrange(0, i as int);
        if i > 0 {
            out.append(",");
        }
        out.append(pad);
        wstring(out, v[i].as_str());
        proof {
            assert(v.deep_view()[i as int] == v@[i as int]@);
            assert(v.deep_view().subrange(0, i as int + 1) =~= t.push(v@[i as int]@));
            lemma_emit_str_items_snoc(t, v@[i as int]@, pad@);
            if i == 0 {
                assert(out@ =~= pre + emit_str_items(v.deep_view().subrange(0, 1), pad@));
            } else {
                assert(out@ =~= pre + emit_str_items(
                    v.deep_view().subrange(0, i as int + 1),
                    pad@,
                ));
            }
        }
        i = i + 1;
    }
    proof {
        assert(v.deep_view().subrange(0, v.len() as int) =~= v.deep_view());
    }
}

fn wstr_list(out: &mut String, v: &Vec<String>, pad: &str, close: &str)
    ensures
        final(out)@ == old(out)@ + emit_str_list(v.deep_view(), pad@, close@),
{
    let ghost pre = out@;
    if v.len() == 0 {
        out.append("[]");
        proof {
            assert(v.deep_view().len() == 0);
        }
    } else {
        out.append("[");
        wstr_items(out, v, pad);
        out.append(close);
        out.append("]");
        proof {
            assert(v.deep_view().skip(0) =~= v.deep_view());
            assert(v.deep_view().len() == v@.len());
            assert(out@ =~= pre + emit_str_list(v.deep_view(), pad@, close@));
        }
    }
}

#[verifier::rlimit(100)]
fn wcmd_entry(out: &mut String, name: &str, command: &str, args: &Vec<String>)
    ensures
        final(out)@ == old(out)@ + emit_cmd_entry(
            CmdModel { name: name@, command: command@, args: args.deep_view() },
        ),
{
    let ghost pre = out@;
    out.append("{");
    out.append("\n      ");
    wstring(out, "name");
    out.append(": ");
    wstring(out, name);
    out.append(",");
    out.append("\n      ");
    wstring(out, "command");
    out.append(": ");
    wstring(out, command);
    out.append(",");
    out.append("\n      ");
    wstring(out, "args");
    out.append(": ");
    wstr_list(out, args, "\n        ", "\n      ");
    out.append("\n    ");
    out.append("}");
    proof {
        assert(out@ =~= pre + emit_cmd_entry(
            CmdModel { name: name@, command: command@, args: args.deep_view() },
        ));
    }
}

#[verifier::rlimit(100)]
fn wrun_entry(out: &mut String, r: &RunJson)
    ensures
        final(out)@ == old(out)@ + emit_run_entry(r.model()),
{
    let ghost pre = out@;
    out.append("{");
    out.append("\n      ");
    wstring(out, "name");
    out.append(": ");
    wstring(out, r.name.as_str());
    proof {
        assert(out@ =~= pre + ("{"@ + pad_key() + emit_string("name"@) + ": "@ + emit_string(
            r.name@,
        )));
    }
    out.append(",");
    out.append("\n      ");
    wstring(out, "command");
    out.append(": ");
    wstring(out, r.command.as_str());
    proof {
        assert(out@ =~= pre + ("{"@ + pad_key() + emit_string("name"@) + ": "@ + emit_string(
            r.name@,
        ) + ","@ + pad_key() + emit_string("command"@) + ": "@ + emit_string(r.command@)));
    }
    out.append(",");
    out.append("\n      ");
    wstring(out, "args");
    out.append(": ");
    wstr_list(out, &r.args, "\n        ", "\n      ");
    out.append(",");
    out.append("\n      ");
    wstring(out, "pre_build");
    out.append(": ");
    wbool(out, r.pre_build);
    out.append("\n    ");
    out.append("}");
    proof {
        assert(out@ =~= pre + emit_run_entry(r.model()));
    }
}

#[verifier::rlimit(100)]
proof fn lemma_emit_cmd_items_snoc(t: Seq<CmdModel>, x: CmdModel)
    ensures
        emit_cmd_items(t.push(x)) == (if t.len() == 0 {
            pad_elem() + emit_cmd_entry(x)
        } else {
            emit_cmd_items(t) + ","@ + (pad_elem() + emit_cmd_entry(x))
        }),
    decreases t.len(),
{
    if t.len() == 0 {
        assert(t.push(x)[0] == x);
    } else if t.len() == 1 {
        assert(t.push(x)[0] == t[0]);
        assert(t.push(x).skip(1) =~= seq![x]);
        assert(emit_cmd_items(seq![x]) == pad_elem() + emit_cmd_entry(x));
        assert(emit_cmd_items(t.push(x)) =~= emit_cmd_items(t) + ","@ + (pad_elem() + emit_cmd_entry(x)));
    } else {
        assert(t.push(x)[0] == t[0]);
        assert(t.push(x).skip(1) =~= t.skip(1).push(x));
        lemma_emit_cmd_items_snoc(t.skip(1), x);
        assert(emit_cmd_items(t.push(x)) =~= emit_cmd_items(t) + ","@ + (pad_elem() + emit_cmd_entry(x)));
    }
}

#[verifier::rlimit(100)]
fn wbuild_items(out: &mut String, v: &Vec<BuildJson>)
    requires
        v.len() >= 1,
    ensures
        final(out)@ == old(out)@ + emit_cmd_items(build_models(v@)),
{
    let ghost pre = out@;
    let mut i: usize = 0;
    while i < v.len()
        invariant
            i <= v.len(),
            i == 0 ==> out@ == pre,
            i >= 1 ==> out@ == pre + emit_cmd_items(build_models(v@).subrange(0, i as int)),
        decreases v.len() - i,
    {
        let ghost t = build_models(v@).subrange(0, i as int);
        if i > 0 {
            out.append(",");
        }
        out.append("\n    ");
        wcmd_entry(out, v[i].name.as_str(), v[i].command.as_str(), &v[i].args);
        proof {
            assert(build_models(v@)[i as int] == v@[i as int].model());
            assert(build_models(v@).subrange(0, i as int + 1) =~= t.push(v@[i as int].model()));
            lemma_emit_cmd_items_snoc(t, v@[i as int].model());
            if i == 0 {
                assert(out@ =~= pre + emit_cmd_items(build_models(v@).subrange(0, 1)));
            } else {
                assert(out@ =~= pre + emit_cmd_items(build_models(v@).subrange(0, i as int + 1)));
            }
        }
        i = i + 1;
    }
    proof {
        assert(build_models(v@).subrange(0, v.len() as int) =~= build_models(v@));
    }
}

fn wbuild_list(out: &mut String, v: &Vec<BuildJson>)
    ensures
        final(out)@ == old(out)@ + emit_cmd_list(build_models(v@)),
{
    let ghost pre = out@;
    if v.len() == 0 {
        out.append("[]");
        proof {
            assert(build_models(v@).len() == 0);
        }
    } else {
        out.append("[");
        wbuild_items(out, v);
        out.append("\n  ");
        out.append("]");
        proof {
            assert(build_models(v@).skip(0) =~= build_models(v@));
            assert(out@ =~= pre + emit_cmd_list(build_models(v@)));
        }
    }
}

#[verifier::rlimit(100)]
fn wcfg_items(out: &mut String, v: &Vec<ConfigureJson>)
    requires
        v.len() >= 1,
    ensures
        final(out)@ == old(out)@ + emit_cmd_items(configure_models(v@)),
{
    let ghost pre = out@;
    let mut i: usize = 0;
    while i < v.len()
        invariant
            i <= v.len(),
            i == 0 ==> out@ == pre,
            i >= 1 ==> out@ == pre + emit_cmd_items(configure_models(v@).subrange(0, i as int)),
        decreases v.len() - i,
    {
        let ghost t = configure_models(v@).subrange(0, i as int);
        if i > 0 {
            out.append(",");
        }
        out.append("\n    ");
        wcmd_entry(out, v[i].name.as_str(), v[i].command.as_str(), &v[i].args);
        proof {
            assert(configure_models(v@)[i as int] == v@[i as int].model());
            assert(configure_models(v@).subrange(0, i as int + 1) =~= t.push(v@[i as int].model()));
            lemma_emit_cmd_items_snoc(t, v@[i as int].model());
            if i == 0 {
                assert(out@ =~= pre + emit_cmd_items(configure_models(v@).subrange(0, 1)));
            } else {
                assert(out@ =~= pre + emit_cmd_items(configure_models(v@).subrange(0, i as int + 1)));
            }
        }
        i = i + 1;
    }
    proof {
        assert(configure_models(v@).subrange(0, v.len() as int) =~= configure_models(v@));
    }
}

fn wcfg_list(out: &mut String, v: &Vec<ConfigureJson>)
    ensures
        final(out)@ == old(out)@ + emit_cmd_list(configure_models(v@)),
{
    let ghost pre = out@;
    if v.len() == 0 {
        out.append("[]");
        proof {
            assert(configure_models(v@).len() == 0);
        }
    } else {
        out.append("[");
        wcfg_items(out, v);
        out.append("\n  ");
        out.append("]");
        proof {
            assert(configure_models(v@).skip(0) =~= configure_models(v@));
            assert(out@ =~= pre + emit_cmd_list(configure_models(v@)));
        }
    }
}

#[verifier::rlimit(100)]
proof fn lemma_emit_run_items_snoc(t: Seq<RunModel>, x: RunModel)
    ensures
        emit_run_items(t.push(x)) == (if t.len() == 0 {
            pad_elem() + emit_run_entry(x)
        } else {
            emit_run_items(t) + ","@ + (pad_elem() + emit_run_entry(x))
        }),
    decreases t.len(),
{
    if t.len() == 0 {
        assert(t.push(x)[0] == x);
    } else if t.len() == 1 {
        assert(t.push(x)[0] == t[0]);
        assert(t.push(x).skip(1) =~= seq![x]);
        assert(emit_run_items(seq![x]) == pad_elem() + emit_run_entry(x));
        assert(emit_run_items(t.push(x)) =~= emit_run_items(t) + ","@ + (pad_elem() + emit_run_entry(x)));
    } else {
        assert(t.push(x)[0] == t[0]);
        assert(t.push(x).skip(1) =~= t.skip(1).push(x));
        lemma_emit_run_items_snoc(t.skip(1), x);
        assert(emit_run_items(t.push(x)) =~= emit_run_items(t) + ","@ + (pad_elem() + emit_run_entry(x)));
    }
}

#[verifier::rlimit(100)]
fn wrun_items(out: &mut String, v: &Vec<RunJson>)
    requires
        v.len() >= 1,
    ensures
        final(out)@ == old(out)@ + emit_run_items(run_models(v@)),
{
    let ghost pre = out@;
    let mut i: usize = 0;
    while i < v.len()
        invariant
            i <= v.len(),
            i == 0 ==> out@ == pre,
            i >= 1 ==> out@ == pre + emit_run_items(run_models(v@).subrange(0, i as int)),
        decreases v.len() - i,
    {
        let ghost t = run_models(v@).subrange(0, i as int);
        if i > 0 {
            out.append(",");
        }
        out.append("\n    ");
        wrun_entry(out, &v[i]);
        proof {
            assert(run_models(v@)[i as int] == v@[i as int].model());
            assert(run_models(v@).subrange(0, i as int + 1) =~= t.push(v@[i as int].model()));
            lemma_emit_run_items_snoc(t, v@[i as int].model());
            if i == 0 {
                assert(out@ =~= pre + emit_run_items(run_models(v@).subrange(0, 1)));
            } else {
                assert(out@ =~= pre + emit_run_items(run_models(v@).subrange(0, i as int + 1)));
            }
        }
        i = i + 1;
    }
    proof {
        assert(run_models(v@).subrange(0, v.len() as int) =~= run_models(v@));
    }
}

fn wrun_list(out: &mut String, v: &Vec<RunJson>)
    ensures
        final(out)@ == old(out)@ + emit_run_list(run_models(v@)),
{
    let ghost pre = out@;
    if v.len() == 0 {
        out.append("[]");
        proof {
            assert(run_models(v@).len() == 0);
        }
    } else {
        out.append("[");
        wrun_items(out, v);
        out.append("\n  ");
        out.append("]");
        proof {
            assert(run_models(v@).skip(0) =~= run_models(v@));
            assert(out@ =~= pre + emit_run_list(run_models(v@)));
        }
    }
}

fn wmember_lead(out: &mut String, key: &str)
    ensures
        final(out)@ == old(out)@ + emit_member_lead(key@),
{
    let ghost pre = out@;
    out.append("\n  ");
    wstring(out, key);
    out.append(": ");
    proof {
        assert(out@ =~= pre + emit_member_lead(key@));
    }
}

/// Serializes the whole document, pretty-printed, exactly as `emit_doc`
/// describes.
#[verifier::rlimit(100)]
pub fn save(doc: &CacheJson) -> (r: String)
    ensures
        r@ == emit_doc(doc.model()),
{
    let mut out = String::new();
    let ghost m = doc.model();
    out.append("{");
    wmember_lead(&mut out, "workspace");
    wstring(&mut out, doc.workspace.as_str());
    out.append(",");
    wmember_lead(&mut out, "build_targets");
    wstr_list(&mut out, &doc.build_targets, "\n    ", "\n  ");
    out.append(",");
    wmember_lead(&mut out, "current_build_target");
    wstring(&mut out, doc.current_build_target.as_str());
    out.append(",");
    wmember_lead(&mut out, "builds");
    wbuild_list(&mut out, &doc.builds);
    out.append(",");
    wmember_lead(&mut out, "runs");
    wrun_list(&mut out, &doc.runs);
    out.append(",");
    wmember_lead(&mut out, "configurations");
    wcfg_list(&mut out, &doc.configurations);
    out.append("\n}");
    proof {
        assert(out@ == emit_doc(m));
    }
    out
}

// ---------------------------------------------------------------------
// Executable parser.
// ---------------------------------------------------------------------

fn cws(c: char) -> (r: bool)
    ensures
        r == ws_char(c),
{
    c == ' ' || c == '\t' || c == '\n' || c == '\r'
}

fn xskip_ws(s: &str, n: usize, i: usize) -> (j: usize)
    requires
        n == s@.len(),
        i <= n,
    ensures
        j as int == skip_ws_from(s@, i as int),
        i <= j <= n,
{
    let mut j = i;
    while j < n && cws(s.get_char(j))
        invariant
            i <= j <= n,
            n == s@.len(),
            forall|k: int| i <= k < j ==> ws_char(s@[k]),
        decreases n - j,
    {
        j = j + 1;
    }
    proof {
        lemma_skip_ws_from(s@, i as int, j as int);
    }
    j
}

fn xtoken(s: &str, n: usize, i: usize, c: char) -> (r: Option<usize>)
    requires
        n == s@.len(),
        i <= n,
    ensures
        r matches Some(j) ==> parse_token(s@, i as int, c) == Some(j as int) && i < j <= n,
        r is None ==> parse_token(s@, i as int, c) is None,
{
    let j = xskip_ws(s, n, i);
    if j < n && s.get_char(j) == c {
        Some(j + 1)
    } else {
        None
    }
}

fn xmore(s: &str, n: usize, i: usize) -> (r: Option<(bool, usize)>)
    requires
        n == s@.len(),
        i <= n,
    ensures
        r matches Some(p) ==> parse_more(s@, i as int) == Some((p.0, p.1 as int)) && i < p.1 <= n,
        r is None ==> parse_more(s@, i as int) is None,
{
    let k = xskip_ws(s, n, i);
    if k < n && s.get_char(k) == ',' {
        Some((true, k + 1))
    } else if k < n && s.get_char(k) == '}' {
        Some((false, k + 1))
    } else {
        None
    }
}

fn xhexv(c: char) -> (r: u32)
    ensures
        r as int == hex_val(c),
        r <= 16,
{
    let v = c as u32;
    if 48 <= v && v <= 57 {
        v - 48
    } else if 97 <= v && v <= 102 {
        v - 87
    } else if 65 <= v && v <= 70 {
        v - 55
    } else {
        16
    }
}

/// Relies on `char::from_u32`: for a Unicode scalar value it returns the
/// character with exactly that value.
#[verifier::external_body]
fn char_from_code(v: u32) -> (c: char)
    requires
        v < 0xD800 || (0xE000 <= v && v <= 0x10FFFF),
    ensures
        c as u32 == v,
{
    char::from_u32(v).unwrap()
}

fn xstr_rest(s: &str, n: usize, i0: usize) -> (r: Option<(String, usize)>)
    requires
        n == s@.len(),
        i0 <= n,
    ensures
        r matches Some(p) ==> parse_str_rest(s@, i0 as int, Seq::empty()) == Some(
            (p.0@, p.1 as int),
        ) && i0 < p.1 <= n,
        r is None ==> parse_str_rest(s@, i0 as int, Seq::empty()) is None,
{
    let mut acc = String::new();
    let mut i = i0;
    while i < n
        invariant
            i0 <= i <= n,
            n == s@.len(),
            parse_str_rest(s@, i0 as int, Seq::empty()) == parse_str_rest(s@, i as int, acc@),
        decreases n - i,
    {
        let c = s.get_char(i);
        if c == '"' {
            return Some((acc, i + 1));
        }
        if c == '\\' {
            if n - i < 2 {
                return None;
            }
            let e = s.get_char(i + 1);
            if e == 'u' {
                if n - i < 6 {
                    return None;
                }
                let h0 = xhexv(s.get_char(i + 2));
                let h1 = xhexv(s.get_char(i + 3));
                let h2 = xhexv(s.get_char(i + 4));
                let h3 = xhexv(s.get_char(i + 5));
                if !(h0 < 16 && h1 < 16 && h2 < 16 && h3 < 16) {
                    return None;
                }
                let v: u32 = h0 * 4096 + h1 * 256 + h2 * 16 + h3;
                proof {
                    assert(v as int == hex4_val(s@, i as int + 2));
                }
                if v < 0xD800 || v >= 0xE000 {
                    let c2 = char_from_code(v);
                    proof {
                        vstd::utf8::char_u32_cast(c2, v);
                        assert(c2 == ((hex4_val(s@, i as int + 2) as u32) as char));
                    }
                    push_char(&mut acc, c2);
                    i = i + 6;
                } else if v < 0xDC00 {
                    if n - i < 12 {
                        return None;
                    }
                    if !(s.get_char(i + 6) == '\\' && s.get_char(i + 7) == 'u') {
                        return None;
                    }
                    let g0 = xhexv(s.get_char(i + 8));
                    let g1 = xhexv(s.get_char(i + 9));
                    let g2 = xhexv(s.get_char(i + 10));
                    let g3 = xhexv(s.get_char(i + 11));
                    if !(g0 < 16 && g1 < 16 && g2 < 16 && g3 < 16) {
                        return None;
                    }
                    let w: u32 = g0 * 4096 + g1 * 256 + g2 * 16 + g3;
                    proof {
                        assert(w as int == hex4_val(s@, i as int + 8));
                    }
                    if 0xDC00 <= w && w < 0xE000 {
                        let code: u32 = 0x10000 + (v - 0xD800) * 0x400 + (w - 0xDC00);
                        let c2 = char_from_code(code);
                        proof {
                            vstd::utf8::char_u32_cast(c2, code);
                            assert(c2 == (((0x10000 + (hex4_val(s@, i as int + 2) - 0xD800) * 0x400
                                + (hex4_val(s@, i as int + 8) - 0xDC00)) as u32) as char));
                        }
                        push_char(&mut acc, c2);
                        i = i + 12;
                    } else {
                        return None;
                    }
                } else {
                    return None;
                }
            } else {
                let rc: char = if e == '"' {
                    '"'
                } else if e == '\\' {
                    '\\'
                } else if e == '/' {
                    '/'
                } else if e == 'n' {
                    '\n'
                } else if e == 't' {
                    '\t'
                } else if e == 'r' {
                    '\r'
                } else if e == 'b' {
                    '\u{0008}'
                } else if e == 'f' {
                    '\u{000C}'
                } else {
                    return None;
                };
                push_char(&mut acc, rc);
                i = i + 2;
            }
        } else if (c as u32) < 32 {
            return None;
        } else {
            push_char(&mut acc, c);
            i = i + 1;
        }
    }
    None
}

fn xstring(s: &str, n: usize, i: usize) -> (r: Option<(String, usize)>)
    requires
        n == s@.len(),
        i <= n,
    ensures
        r matches Some(p) ==> parse_string(s@, i as int) == Some((p.0@, p.1 as int)) && i < p.1
            <= n,
        r is None ==> parse_string(s@, i as int) is None,
{
    let j = xskip_ws(s, n, i);
    if j < n && s.get_char(j) == '"' {
        xstr_rest(s, n, j + 1)
    } else {
        None
    }
}

fn xbool(s: &str, n: usize, i: usize) -> (r: Option<(bool, usize)>)
    requires
        n == s@.len(),
        i <= n,
    ensures
        r matches Some(p) ==> parse_bool(s@, i as int) == Some((p.0, p.1 as int)) && i < p.1 <= n,
        r is None ==> parse_bool(s@, i as int) is None,
{
    let j = xskip_ws(s, n, i);
    if n - j >= 4 && s.get_char(j) == 't' && s.get_char(j + 1) == 'r' && s.get_char(j + 2) == 'u'
        && s.get_char(j + 3) == 'e' {
        Some((true, j + 4))
    } else if n - j >= 5 && s.get_char(j) == 'f' && s.get_char(j + 1) == 'a' && s.get_char(j + 2)
        == 'l' && s.get_char(j + 3) == 's' && s.get_char(j + 4) == 'e' {
        Some((false, j + 5))
    } else {
        None
    }
}

/// Character-wise string comparison.
fn str_eq(a: &str, b: &str) -> (r: bool)
    ensures
        r == (a@ == b@),
{
    let na = a.unicode_len();
    let nb = b.unicode_len();
    if na != nb {
        return false;
    }
    let mut i: usize = 0;
    while i < na
        invariant
            i <= na,
            na == a@.len(),
            na == b@.len(),
            forall|k: int| 0 <= k < i ==> a@[k] == b@[k],
        decreases na - i,
    {
        if a.get_char(i) != b.get_char(i) {
            return false;
        }
        i = i + 1;
    }
    proof {
        assert(a@ =~= b@);
    }
    true
}

fn xstr_elems(s: &str, n: usize, i0: usize) -> (r: Option<(Vec<String>, usize)>)
    requires
        n == s@.len(),
        i0 <= n,
    ensures
        r matches Some(p) ==> parse_str_elems(s@, i0 as int, Seq::empty()) == Some(
            (p.0.deep_view(), p.1 as int),
        ) && i0 < p.1 <= n,
        r is None ==> parse_str_elems(s@, i0 as int, Seq::empty()) is None,
{
    let mut acc: Vec<String> = Vec::new();
    let mut i = i0;
    proof {
        assert(acc.deep_view() =~= Seq::<Seq<char>>::empty());
    }
    while i < n
        invariant
            i0 <= i <= n,
            n == s@.len(),
            parse_str_elems(s@, i0 as int, Seq::empty()) == parse_str_elems(
                s@,
                i as int,
                acc.deep_view(),
            ),
        decreases n - i,
    {
        let ghost acc0 = acc.deep_view();
        let (v, j) = match xstring(s, n, i) {
            Some(p) => p,
            None => {
                return None;
            },
        };
        let k = xskip_ws(s, n, j);
        if k < n && s.get_char(k) == ',' {
            let ghost vv = v@;
            acc.push(v);
            proof {
                assert(acc.deep_view() =~= acc0.push(vv));
            }
            i = k + 1;
        } else if k < n && s.get_char(k) == ']' {
            let ghost vv = v@;
            acc.push(v);
            proof {
                assert(acc.deep_view() =~= acc0.push(vv));
            }
            return Some((acc, k + 1));
        } else {
            return None;
        }
    }
    None
}

fn xstr_array(s: &str, n: usize, i: usize) -> (r: Option<(Vec<String>, usize)>)
    requires
        n == s@.len(),
        i <= n,
    ensures
        r matches Some(p) ==> parse_str_array(s@, i as int) == Some((p.0.deep_view(), p.1 as int))
            && i < p.1 <= n,
        r is None ==> parse_str_array(s@, i as int) is None,
{
    match xtoken(s, n, i, '[') {
        None => None,
        Some(j) => {
            let k = xskip_ws(s, n, j);
            if k < n && s.get_char(k) == ']' {
                let empty: Vec<String> = Vec::new();
                proof {
                    assert(empty.deep_view() =~= Seq::<Seq<char>>::empty());
                }
                Some((empty, k + 1))
            } else {
                xstr_elems(s, n, j)
            }
        },
    }
}

pub open spec fn opt_str_model(o: Option<String>) -> Option<Seq<char>> {
    match o {
        Some(x) => Some(x@),
        None => None,
    }
}

pub open spec fn opt_strs_model(o: Option<Vec<String>>) -> Option<Seq<Seq<char>>> {
    match o {
        Some(x) => Some(x.deep_view()),
        None => None,
    }
}

pub open spec fn opt_builds_model(o: Option<Vec<BuildJson>>) -> Option<Seq<CmdModel>> {
    match o {
        Some(x) => Some(build_models(x@)),
        None => None,
    }
}

pub open spec fn opt_runs_model(o: Option<Vec<RunJson>>) -> Option<Seq<RunModel>> {
    match o {
        Some(x) => Some(run_models(x@)),
        None => None,
    }
}

pub open spec fn opt_cfgs_model(o: Option<Vec<ConfigureJson>>) -> Option<Seq<CmdModel>> {
    match o {
        Some(x) => Some(configure_models(x@)),
        None => None,
    }
}

pub open spec fn cmd_parts_of(
    name: Option<String>,
    command: Option<String>,
    args: Option<Vec<String>>,
) -> CmdParts {
    CmdParts {
        name: opt_str_model(name),
        command: opt_str_model(command),
        args: opt_strs_model(args),
    }
}

pub open spec fn run_parts_of(
    name: Option<String>,
    command: Option<String>,
    args: Option<Vec<String>>,
    pre_build: Option<bool>,
) -> RunParts {
    RunParts {
        name: opt_str_model(name),
        command: opt_str_model(command),
        args: opt_strs_model(args),
        pre_build: pre_build,
    }
}

pub open spec fn doc_parts_of(
    workspace: Option<String>,
    build_targets: Option<Vec<String>>,
    current_build_target: Option<String>,
    builds: Option<Vec<BuildJson>>,
    runs: Option<Vec<RunJson>>,
    configurations: Option<Vec<ConfigureJson>>,
) -> DocParts {
    DocParts {
        workspace: opt_str_model(workspace),
        build_targets: opt_strs_model(build_targets),
        current_build_target: opt_str_model(current_build_target),
        builds: opt_builds_model(builds),
        runs: opt_runs_model(runs),
        configurations: opt_cfgs_model(configurations),
    }
}

/// Entry members, recursively: the recursion is bounded by the member
/// count, since a repeated member ends the parse.
fn xcmd_members(
    s: &str,
    n: usize,
    i: usize,
    name: Option<String>,
    command: Option<String>,
    args: Option<Vec<String>>,
) -> (r: Option<((Option<String>, Option<String>, Option<Vec<String>>), usize)>)
    requires
        n == s@.len(),
        i <= n,
    ensures
        r matches Some(p) ==> parse_cmd_members(s@, i as int, cmd_parts_of(name, command, args))
            == Some((cmd_parts_of(p.0.0, p.0.1, p.0.2), p.1 as int)) && i < p.1 <= n,
        r is None ==> parse_cmd_members(s@, i as int, cmd_parts_of(name, command, args)) is None,
    decreases n - i,
{
    let (key, j1) = match xstring(s, n, i) {
        Some(p) => p,
        None => {
            return None;
        },
    };
    let j2 = match xtoken(s, n, j1, ':') {
        Some(x) => x,
        None => {
            return None;
        },
    };
    if str_eq(key.as_str(), "name") {
        if name.is_some() {
            return None;
        }
        let (v, j3) = match xstring(s, n, j2) {
            Some(p) => p,
            None => {
                return None;
            },
        };
        let (more, j4) = match xmore(s, n, j3) {
            Some(p) => p,
            None => {
                return None;
            },
        };
        if more {
            xcmd_members(s, n, j4, Some(v), command, args)
        } else {
            Some(((Some(v), command, args), j4))
        }
    } else if str_eq(key.as_str(), "command") {
        if command.is_some() {
            return None;
        }
        let (v, j3) = match xstring(s, n, j2) {
            Some(p) => p,
            None => {
                return None;
            },
        };
        let (more, j4) = match xmore(s, n, j3) {
            Some(p) => p,
            None => {
                return None;
            },
        };
        if more {
            xcmd_members(s, n, j4, name, Some(v), args)
        } else {
            Some(((name, Some(v), args), j4))
        }
    } else if str_eq(key.as_str(), "args") {
        if args.is_some() {
            return None;
        }
        let (v, j3) = match xstr_array(s, n, j2) {
            Some(p) => p,
            None => {
                return None;
            },
        };
        let (more, j4) = match xmore(s, n, j3) {
            Some(p) => p,
            None => {
                return None;
            },
        };
        if more {
            xcmd_members(s, n, j4, name, command, Some(v))
        } else {
            Some(((name, command, Some(v)), j4))
        }
    } else {
        None
    }
}

fn xcmd_entry(s: &str, n: usize, i: usize) -> (r: Option<((String, String, Vec<String>), usize)>)
    requires
        n == s@.len(),
        i <= n,
    ensures
        r matches Some(p) ==> parse_cmd_entry(s@, i as int) == Some(
            (CmdModel { name: p.0.0@, command: p.0.1@, args: p.0.2.deep_view() }, p.1 as int),
        ) && i < p.1 <= n,
        r is None ==> parse_cmd_entry(s@, i as int) is None,
{
    let j0 = match xtoken(s, n, i, '{') {
        Some(j) => j,
        None => {
            return None;
        },
    };
    match xcmd_members(s, n, j0, None, None, None) {
        Some(((Some(a), Some(b), Some(c)), end)) => Some(((a, b, c), end)),
        Some(_) => None,
        None => None,
    }
}

/// Run entry members, recursively; bounded like the command entry's.
fn xrun_members(
    s: &str,
    n: usize,
    i: usize,
    name: Option<String>,
    command: Option<String>,
    args: Option<Vec<String>>,
    pre_build: Option<bool>,
) -> (r: Option<((Option<String>, Option<String>, Option<Vec<String>>, Option<bool>), usize)>)
    requires
        n == s@.len(),
        i <= n,
    ensures
        r matches Some(p) ==> parse_run_members(
            s@,
            i as int,
            run_parts_of(name, command, args, pre_build),
        ) == Some((run_parts_of(p.0.0, p.0.1, p.0.2, p.0.3), p.1 as int)) && i < p.1 <= n,
        r is None ==> parse_run_members(
            s@,
            i as int,
            run_parts_of(name, command, args, pre_build),
        ) is None,
    decreases n - i,
{
    let (key, j1) = match xstring(s, n, i) {
        Some(p) => p,
        None => {
            return None;
        },
    };
    let j2 = match xtoken(s, n, j1, ':') {
        Some(x) => x,
        None => {
            return None;
        },
    };
    if str_eq(key.as_str(), "name") {
        if name.is_some() {
            return None;
        }
        let (v, j3) = match xstring(s, n, j2) {
            Some(p) => p,
            None => {
                return None;
            },
        };
        let (more, j4) = match xmore(s, n, j3) {
            Some(p) => p,
            None => {
                return None;
            },
        };
        if more {
            xrun_members(s, n, j4, Some(v), command, args, pre_build)
        } else {
            Some(((Some(v), command, args, pre_build), j4))
        }
    } else if str_eq(key.as_str(), "command") {
        if command.is_some() {
            return None;
        }
        let (v, j3) = match xstring(s, n, j2) {
            Some(p) => p,
            None => {
                return None;
            },
        };
        let (more, j4) = match xmore(s, n, j3) {
            Some(p) => p,
            None => {
                return None;
            },
        };
        if more {
            xrun_members(s, n, j4, name, Some(v), args, pre_build)
        } else {
            Some(((name, Some(v), args, pre_build), j4))
        }
    } else if str_eq(key.as_str(), "args") {
        if args.is_some() {
            return None;
        }
        let (v, j3) = match xstr_array(s, n, j2) {
            Some(p) => p,
            None => {
                return None;
            },
        };
        let (more, j4) = match xmore(s, n, j3) {
            Some(p) => p,
            None => {
                return None;
            },
        };
        if more {
            xrun_members(s, n, j4, name, command, Some(v), pre_build)
        } else {
            Some(((name, command, Some(v), pre_build), j4))
        }
    } else if str_eq(key.as_str(), "pre_build") {
        if pre_build.is_some() {
            return None;
        }
        let (v, j3) = match xbool(s, n, j2) {
            Some(p) => p,
            None => {
                return None;
            },
        };
        let (more, j4) = match xmore(s, n, j3) {
            Some(p) => p,
            None => {
                return None;
            },
        };
        if more {
            xrun_members(s, n, j4, name, command, args, Some(v))
        } else {
            Some(((name, command, args, Some(v)), j4))
        }
    } else {
        None
    }
}

fn xrun_entry(s: &str, n: usize, i: usize) -> (r: Option<(RunJson, usize)>)
    requires
        n == s@.len(),
        i <= n,
    ensures
        r matches Some(p) ==> parse_run_entry(s@, i as int) == Some((p.0.model(), p.1 as int))
            && i < p.1 <= n,
        r is None ==> parse_run_entry(s@, i as int) is None,
{
    let j0 = match xtoken(s, n, i, '{') {
        Some(j) => j,
        None => {
            return None;
        },
    };
    match xrun_members(s, n, j0, None, None, None, None) {
        Some(((Some(a), Some(b), Some(c), Some(d)), end)) => Some(
            (RunJson { name: a, command: b, args: c, pre_build: d }, end),
        ),
        Some(_) => None,
        None => None,
    }
}

fn xbuild_elems(s: &str, n: usize, i0: usize) -> (r: Option<(Vec<BuildJson>, usize)>)
    requires
        n == s@.len(),
        i0 <= n,
    ensures
        r matches Some(p) ==> parse_cmd_elems(s@, i0 as int, Seq::empty()) == Some(
            (build_models(p.0@), p.1 as int),
        ) && i0 < p.1 <= n,
        r is None ==> parse_cmd_elems(s@, i0 as int, Seq::empty()) is None,
{
    let mut acc: Vec<BuildJson> = Vec::new();
    let mut i = i0;
    proof {
        assert(build_models(acc@) =~= Seq::<CmdModel>::empty());
    }
    while i < n
        invariant
            i0 <= i <= n,
            n == s@.len(),
            parse_cmd_elems(s@, i0 as int, Seq::empty()) == parse_cmd_elems(
                s@,
                i as int,
                build_models(acc@),
            ),
        decreases n - i,
    {
        let ghost acc0 = build_models(acc@);
        let ((name, command, args), j) = match xcmd_entry(s, n, i) {
            Some(p) => p,
            None => {
                return None;
            },
        };
        let entry = BuildJson { name, command, args };
        let ghost em = entry.model();
        let k = xskip_ws(s, n, j);
        if k < n && s.get_char(k) == ',' {
            acc.push(entry);
            proof {
                assert(build_models(acc@) =~= acc0.push(em));
            }
            i = k + 1;
        } else if k < n && s.get_char(k) == ']' {
            acc.push(entry);
            proof {
                assert(build_models(acc@) =~= acc0.push(em));
            }
            return Some((acc, k + 1));
        } else {
            return None;
        }
    }
    None
}

fn xcfg_elems(s: &str, n: usize, i0: usize) -> (r: Option<(Vec<ConfigureJson>, usize)>)
    requires
        n == s@.len(),
        i0 <= n,
    ensures
        r matches Some(p) ==> parse_cmd_elems(s@, i0 as int, Seq::empty()) == Some(
            (configure_models(p.0@), p.1 as int),
        ) && i0 < p.1 <= n,
        r is None ==> parse_cmd_elems(s@, i0 as int, Seq::empty()) is None,
{
    let mut acc: Vec<ConfigureJson> = Vec::new();
    let mut i = i0;
    proof {
        assert(configure_models(acc@) =~= Seq::<CmdModel>::empty());
    }
    while i < n
        invariant
            i0 <= i <= n,
            n == s@.len(),
            parse_cmd_elems(s@, i0 as int, Seq::empty()) == parse_cmd_elems(
                s@,
                i as int,
                configure_models(acc@),
            ),
        decreases n - i,
    {
        let ghost acc0 = configure_models(acc@);
        let ((name, command, args), j) = match xcmd_entry(s, n, i) {
            Some(p) => p,
            None => {
                return None;
            },
        };
        let entry = ConfigureJson { name, command, args };
        let ghost em = entry.model();
        let k = xskip_ws(s, n, j);
        if k < n && s.get_char(k) == ',' {
            acc.push(entry);
            proof {
                assert(configure_models(acc@) =~= acc0.push(em));
            }
            i = k + 1;
        } else if k < n && s.get_char(k) == ']' {
            acc.push(entry);
            proof {
                assert(configure_models(acc@) =~= acc0.push(em));
            }
            return Some((acc, k + 1));
        } else {
            return None;
        }
    }
    None
}

fn xrun_elems(s: &str, n: usize, i0: usize) -> (r: Option<(Vec<RunJson>, usize)>)
    requires
        n == s@.len(),
        i0 <= n,
    ensures
        r matches Some(p) ==> parse_run_elems(s@, i0 as int, Seq::empty()) == Some(
            (run_models(p.0@), p.1 as int),
        ) && i0 < p.1 <= n,
        r is None ==> parse_run_elems(s@, i0 as int, Seq::empty()) is None,
{
    let mut acc: Vec<RunJson> = Vec::new();
    let mut i = i0;
    proof {
        assert(run_models(acc@) =~= Seq::<RunModel>::empty());
    }
    while i < n
        invariant
            i0 <= i <= n,
            n == s@.len(),
            parse_run_elems(s@, i0 as int, Seq::empty()) == parse_run_elems(
                s@,
                i as int,
                run_models(acc@),
            ),
        decreases n - i,
    {
        let ghost acc0 = run_models(acc@);
        let (entry, j) = match xrun_entry(s, n, i) {
            Some(p) => p,
            None => {
                return None;
            },
        };
        let ghost em = entry.model();
        let k = xskip_ws(s, n, j);
        if k < n && s.get_char(k) == ',' {
            acc.push(entry);
            proof {
                assert(run_models(acc@) =~= acc0.push(em));
            }
            i = k + 1;
        } else if k < n && s.get_char(k) == ']' {
            acc.push(entry);
            proof {
                assert(run_models(acc@) =~= acc0.push(em));
            }
            return Some((acc, k + 1));
        } else {
            return None;
        }
    }
    None
}

fn xbuild_array(s: &str, n: usize, i: usize) -> (r: Option<(Vec<BuildJson>, usize)>)
    requires
        n == s@.len(),
        i <= n,
    ensures
        r matches Some(p) ==> parse_cmd_array(s@, i as int) == Some(
            (build_models(p.0@), p.1 as int),
        ) && i < p.1 <= n,
        r is None ==> parse_cmd_array(s@, i as int) is None,
{
    match xtoken(s, n, i, '[') {
        None => None,
        Some(j) => {
            let k = xskip_ws(s, n, j);
            let empty: Vec<BuildJson> = Vec::new();
            proof {
                assert(build_models(empty@) =~= Seq::<CmdModel>::empty());
            }
            if k < n && s.get_char(k) == ']' {
                Some((empty, k + 1))
            } else {
                xbuild_elems(s, n, j)
            }
        },
    }
}

fn xcfg_array(s: &str, n: usize, i: usize) -> (r: Option<(Vec<ConfigureJson>, usize)>)
    requires
        n == s@.len(),
        i <= n,
    ensures
        r matches Some(p) ==> parse_cmd_array(s@, i as int) == Some(
            (configure_models(p.0@), p.1 as int),
        ) && i < p.1 <= n,
        r is None ==> parse_cmd_array(s@, i as int) is None,
{
    match xtoken(s, n, i, '[') {
        None => None,
        Some(j) => {
            let k = xskip_ws(s, n, j);
            let empty: Vec<ConfigureJson> = Vec::new();
            proof {
                assert(configure_models(empty@) =~= Seq::<CmdModel>::empty());
            }
            if k < n && s.get_char(k) == ']' {
                Some((empty, k + 1))
            } else {
                xcfg_elems(s, n, j)
            }
        },
    }
}

fn xrun_array(s: &str, n: usize, i: usize) -> (r: Option<(Vec<RunJson>, usize)>)
    requires
        n == s@.len(),
        i <= n,
    ensures
        r matches Some(p) ==> parse_run_array(s@, i as int) == Some(
            (run_models(p.0@), p.1 as int),
        ) && i < p.1 <= n,
        r is None ==> parse_run_array(s@, i as int) is None,
{
    match xtoken(s, n, i, '[') {
        None => None,
        Some(j) => {
            let k = xskip_ws(s, n, j);
            let empty: Vec<RunJson> = Vec::new();
            proof {
                assert(run_models(empty@) =~= Seq::<RunModel>::empty());
            }
            if k < n && s.get_char(k) == ']' {
                Some((empty, k + 1))
            } else {
                xrun_elems(s, n, j)
            }
        },
    }
}

/// Why a document failed to read: the text is not a document in this
/// format (malformed syntax, a member outside the schema or given twice,
/// a wrong type, a missing member, or trailing text).
#[derive(Debug, PartialEq, Eq, Structural)]
pub enum LoadError {
    Invalid,
}

impl LoadError {
    /// The message reported for this failure.
    pub fn message(&self) -> (r: String)
        ensures
            r@ == "invalid configuration document"@,
    {
        String::from_str("invalid configuration document")
    }
}

/// Reads a document: `Ok` exactly when the text parses under `load_spec`
/// (the six members in any order, standard escapes), and then the
/// returned document is the parsed one.
#[verifier::rlimit(100)]
pub fn load(s: &str) -> (r: Result<CacheJson, LoadError>)
    ensures
        r matches Ok(d) ==> load_spec(s@) == Some(d.model()),
        r is Err ==> load_spec(s@) is None,
{
    let n = s.unicode_len();
    let j0 = match xtoken(s, n, 0, '{') {
        Some(j) => j,
        None => {
            return Err(LoadError::Invalid);
        },
    };
    let mut workspace: Option<String> = None;
    let mut build_targets: Option<Vec<String>> = None;
    let mut current_build_target: Option<String> = None;
    let mut builds: Option<Vec<BuildJson>> = None;
    let mut runs: Option<Vec<RunJson>> = None;
    let mut configurations: Option<Vec<ConfigureJson>> = None;
    let mut j = j0;
    let mut done = false;
    let mut end: usize = 0;
    while j < n && !done
        invariant
            j0 <= j <= n,
            n == s@.len(),
            parse_token(s@, 0, '{') == Some(j0 as int),
            !done ==> parse_doc_members(s@, j0 as int, doc_parts_empty()) == parse_doc_members(
                s@,
                j as int,
                doc_parts_of(
                    workspace,
                    build_targets,
                    current_build_target,
                    builds,
                    runs,
                    configurations,
                ),
            ),
            done ==> parse_doc_members(s@, j0 as int, doc_parts_empty()) == Some(
                (
                    doc_parts_of(
                        workspace,
                        build_targets,
                        current_build_target,
                        builds,
                        runs,
                        configurations,
                    ),
                    end as int,
                ),
            ) && end <= n,
        decreases n - j,
    {
        let (key, j1) = match xstring(s, n, j) {
            Some(p) => p,
            None => {
                return Err(LoadError::Invalid);
            },
        };
        let j2 = match xtoken(s, n, j1, ':') {
            Some(x) => x,
            None => {
                return Err(LoadError::Invalid);
            },
        };
        if str_eq(key.as_str(), "workspace") {
            if workspace.is_some() {
                return Err(LoadError::Invalid);
            }
            let (v, j3) = match xstring(s, n, j2) {
                Some(p) => p,
                None => {
                    return Err(LoadError::Invalid);
                },
            };
            let (more, j4) = match xmore(s, n, j3) {
                Some(p) => p,
                None => {
                    return Err(LoadError::Invalid);
                },
            };
            workspace = Some(v);
            j = j4;
            if !more {
                done = true;
                end = j4;
            }
        } else if str_eq(key.as_str(), "build_targets") {
            if build_targets.is_some() {
                return Err(LoadError::Invalid);
            }
            let (v, j3) = match xstr_array(s, n, j2) {
                Some(p) => p,
                None => {
                    return Err(LoadError::Invalid);
                },
            };
            let (more, j4) = match xmore(s, n, j3) {
                Some(p) => p,
                None => {
                    return Err(LoadError::Invalid);
                },
            };
            build_targets = Some(v);
            j = j4;
            if !more {
                done = true;
                end = j4;
            }
        } else if str_eq(key.as_str(), "current_build_target") {
            if current_build_target.is_some() {
                return Err(LoadError::Invalid);
            }
            let (v, j3) = match xstring(s, n, j2) {
                Some(p) => p,
                None => {
                    return Err(LoadError::Invalid);
                },
            };
            let (more, j4) = match xmore(s, n, j3) {
                Some(p) => p,
                None => {
                    return Err(LoadError::Invalid);
                },
            };
            current_build_target = Some(v);
            j = j4;
            if !more {
                done = true;
                end = j4;
            }
        } else if str_eq(key.as_str(), "builds") {
            if builds.is_some() {
                return Err(LoadError::Invalid);
            }
            let (v, j3) = match xbuild_array(s, n, j2) {
                Some(p) => p,
                None => {
                    return Err(LoadError::Invalid);
                },
            };
            let (more, j4) = match xmore(s, n, j3) {
                Some(p) => p,
                None => {
                    return Err(LoadError::Invalid);
                },
            };
            builds = Some(v);
            j = j4;
            if !more {
                done = true;
                end = j4;
            }
        } else if str_eq(key.as_str(), "runs") {
            if runs.is_some() {
                return Err(LoadError::Invalid);
            }
            let (v, j3) = match xrun_array(s, n, j2) {
                Some(p) => p,
                None => {
                    return Err(LoadError::Invalid);
                },
            };
            let (more, j4) = match xmore(s, n, j3) {
                Some(p) => p,
                None => {
                    return Err(LoadError::Invalid);
                },
            };
            runs = Some(v);
            j = j4;
            if !more {
                done = true;
                end = j4;
            }
        } else if str_eq(key.as_str(), "configurations") {
            if configurations.is_some() {
                return Err(LoadError::Invalid);
            }
            let (v, j3) = match xcfg_array(s, n, j2) {
                Some(p) => p,
                None => {
                    return Err(LoadError::Invalid);
                },
            };
            let (more, j4) = match xmore(s, n, j3) {
                Some(p) => p,
                None => {
                    return Err(LoadError::Invalid);
                },
            };
            configurations = Some(v);
            j = j4;
            if !more {
                done = true;
                end = j4;
            }
        } else {
            return Err(LoadError::Invalid);
        }
    }
    if !done {
        return Err(LoadError::Invalid);
    }
    match (workspace, build_targets, current_build_target, builds, runs, configurations) {
        (Some(w), Some(bt), Some(c), Some(b), Some(r), Some(cf)) => {
            let d = CacheJson {
                workspace: w,
                build_targets: bt,
                current_build_target: c,
                builds: b,
                runs: r,
                configurations: cf,
            };
            let k = xskip_ws(s, n, end);
            if k != n {
                return Err(LoadError::Invalid);
            }
            proof {
                assert(parse_doc(s@, 0) == Some((d.model(), end as int)));
            }
            Ok(d)
        },
        _ => Err(LoadError::Invalid),
    }
}

// ---------------------------------------------------------------------
// The round trip: parsing what was emitted gives the document back.
// ---------------------------------------------------------------------

/// `p` is the text of `s` starting at `i`.
spec fn piece_at(s: Seq<char>, i: int, p: Seq<char>) -> bool {
    0 <= i && i + p.len() <= s.len() && s.subrange(i, i + p.len()) == p
}

spec fn all_ws(p: Seq<char>) -> bool {
    forall|k: int| 0 <= k < p.len() ==> ws_char(p[k])
}

proof fn lemma_piece_index(s: Seq<char>, i: int, p: Seq<char>, k: int)
    requires
        piece_at(s, i, p),
        0 <= k < p.len(),
    ensures
        s[i + k] == p[k],
{
    assert(s.subrange(i, i + p.len())[k] == s[i + k]);
}

proof fn lemma_piece_split(s: Seq<char>, i: int, a: Seq<char>, b: Seq<char>)
    requires
        piece_at(s, i, a + b),
    ensures
        piece_at(s, i, a),
        piece_at(s, i + a.len(), b),
{
    assert forall|k: int| 0 <= k < a.len() implies s.subrange(i, i + a.len())[k] == a[k] by {
        assert(s.subrange(i, i + (a + b).len())[k] == (a + b)[k]);
    }
    assert(s.subrange(i, i + a.len()) =~= a);
    assert forall|k: int| 0 <= k < b.len() implies s.subrange(
        i + a.len(),
        i + a.len() + b.len(),
    )[k] == b[k] by {
        assert(s.subrange(i, i + (a + b).len())[a.len() + k] == (a + b)[a.len() + k]);
    }
    assert(s.subrange(i + a.len(), i + a.len() + b.len()) =~= b);
}

proof fn lemma_skip_ws_piece(s: Seq<char>, i: int, pad: Seq<char>)
    requires
        piece_at(s, i, pad),
        all_ws(pad),
        i + pad.len() < s.len(),
        !ws_char(s[i + pad.len()]),
    ensures
        skip_ws_from(s, i) == i + pad.len(),
{
    assert forall|k: int| i <= k < i + pad.len() implies ws_char(s[k]) by {
        lemma_piece_index(s, i, pad, k - i);
    }
    lemma_skip_ws_from(s, i, i + pad.len());
}

proof fn lemma_token_piece(s: Seq<char>, i: int, pad: Seq<char>, c: char)
    requires
        all_ws(pad),
        piece_at(s, i, pad),
        piece_at(s, i + pad.len(), seq![c]),
        !ws_char(c),
    ensures
        parse_token(s, i, c) == Some(i + pad.len() + 1),
{
    lemma_piece_index(s, i + pad.len(), seq![c], 0);
    lemma_skip_ws_piece(s, i, pad);
}

proof fn lemma_str_rest_emit(s: Seq<char>, i: int, content: Seq<char>, acc: Seq<char>)
    requires
        piece_at(s, i, emit_str_body(content) + "\""@),
    ensures
        parse_str_rest(s, i, acc) == Some(
            (acc + content, i + emit_str_body(content).len() + 1),
        ),
    decreases content.len(),
{
    reveal_strlit("\"");
    reveal_strlit("\\\"");
    reveal_strlit("\\\\");
    reveal_strlit("\\u00");
    if content.len() == 0 {
        assert(emit_str_body(content) + "\""@ =~= "\""@);
        lemma_piece_index(s, i, "\""@, 0);
        assert(s[i] == '"');
        assert(acc + content =~= acc);
    } else {
        let c = content[0];
        let e = escape_char(c);
        let rest = emit_str_body(content.skip(1));
        assert(emit_str_body(content) == e + rest);
        assert(emit_str_body(content) + "\""@ =~= e + (rest + "\""@));
        lemma_piece_split(s, i, e, rest + "\""@);
        if c == '"' {
            lemma_piece_index(s, i, e, 0);
            lemma_piece_index(s, i, e, 1);
            lemma_str_rest_emit(s, i + 2, content.skip(1), acc.push('"'));
            assert(acc.push('"') + content.skip(1) =~= acc + content);
        } else if c == '\\' {
            lemma_piece_index(s, i, e, 0);
            lemma_piece_index(s, i, e, 1);
            lemma_str_rest_emit(s, i + 2, content.skip(1), acc.push('\\'));
            assert(acc.push('\\') + content.skip(1) =~= acc + content);
        } else if (c as u32) < 32 {
            let h1 = hex_digit(c as u32 as int / 16);
            let h2 = hex_digit(c as u32 as int % 16);
            assert(e =~= seq!['\\', 'u', '0', '0', h1, h2]);
            lemma_piece_index(s, i, e, 0);
            lemma_piece_index(s, i, e, 1);
            lemma_piece_index(s, i, e, 2);
            lemma_piece_index(s, i, e, 3);
            lemma_piece_index(s, i, e, 4);
            lemma_piece_index(s, i, e, 5);
            assert(hex_val(s[i + 4]) == c as u32 as int / 16);
            assert(hex_val(s[i + 5]) == c as u32 as int % 16);
            assert(is_hex4(s, i + 2));
            assert(c as u32 as int / 16 * 16 + c as u32 as int % 16 == c as u32 as int);
            assert(hex4_val(s, i + 2) == c as u32 as int);
            vstd::utf8::char_u32_cast(c, c as u32);
            assert(((hex4_val(s, i + 2) as u32) as char) == c);
            lemma_str_rest_emit(s, i + 6, content.skip(1), acc.push(c));
            assert(acc.push(c) + content.skip(1) =~= acc + content);
        } else {
            lemma_piece_index(s, i, e, 0);
            lemma_str_rest_emit(s, i + 1, content.skip(1), acc.push(c));
            assert(acc.push(c) + content.skip(1) =~= acc + content);
        }
    }
}


proof fn lemma_string_emit(s: Seq<char>, i: int, pad: Seq<char>, content: Seq<char>)
    requires
        piece_at(s, i, pad + emit_string(content)),
        all_ws(pad),
    ensures
        parse_string(s, i) == Some((content, i + pad.len() + emit_string(content).len())),
{
    reveal_strlit("\"");
    lemma_piece_split(s, i, pad, emit_string(content));
    let q = i + pad.len();
    assert(emit_string(content) =~= "\""@ + (emit_str_body(content) + "\""@));
    lemma_piece_split(s, q, "\""@, emit_str_body(content) + "\""@);
    lemma_piece_index(s, q, "\""@, 0);
    lemma_skip_ws_piece(s, i, pad);
    lemma_str_rest_emit(s, q + 1, content, Seq::empty());
    assert(Seq::empty() + content =~= content);
}

proof fn lemma_bool_emit(s: Seq<char>, i: int, pad: Seq<char>, b: bool)
    requires
        piece_at(s, i, pad + emit_bool(b)),
        all_ws(pad),
    ensures
        parse_bool(s, i) == Some((b, i + pad.len() + emit_bool(b).len())),
{
    reveal_strlit("true");
    reveal_strlit("false");
    lemma_piece_split(s, i, pad, emit_bool(b));
    let q = i + pad.len();
    lemma_piece_index(s, q, emit_bool(b), 0);
    lemma_skip_ws_piece(s, i, pad);
    if b {
        lemma_piece_index(s, q, emit_bool(b), 1);
        lemma_piece_index(s, q, emit_bool(b), 2);
        lemma_piece_index(s, q, emit_bool(b), 3);
    } else {
        lemma_piece_index(s, q, emit_bool(b), 1);
        lemma_piece_index(s, q, emit_bool(b), 2);
        lemma_piece_index(s, q, emit_bool(b), 3);
        lemma_piece_index(s, q, emit_bool(b), 4);
    }
}



proof fn lemma_pads_ws()
    ensures
        all_ws(pad_top()),
        all_ws(pad_elem()),
        all_ws(pad_key()),
        all_ws(pad_arg()),
        all_ws(" "@),
        pad_top().len() == 3,
        pad_elem().len() == 5,
        pad_key().len() == 7,
        pad_arg().len() == 9,
{
    reveal_strlit("\n  ");
    reveal_strlit("\n    ");
    reveal_strlit("\n      ");
    reveal_strlit("\n        ");
    reveal_strlit(" ");
    assert forall|k: int| 0 <= k < pad_top().len() implies ws_char(pad_top()[k]) by {}
    assert forall|k: int| 0 <= k < pad_elem().len() implies ws_char(pad_elem()[k]) by {}
    assert forall|k: int| 0 <= k < pad_key().len() implies ws_char(pad_key()[k]) by {}
    assert forall|k: int| 0 <= k < pad_arg().len() implies ws_char(pad_arg()[k]) by {}
    assert forall|k: int| 0 <= k < " "@.len() implies ws_char(" "@[k]) by {}
}

proof fn lemma_str_items_emit(
    s: Seq<char>,
    i: int,
    items: Seq<Seq<char>>,
    pad: Seq<char>,
    close: Seq<char>,
    acc: Seq<Seq<char>>,
)
    requires
        items.len() >= 1,
        piece_at(s, i, emit_str_items(items, pad) + close + "]"@),
        all_ws(pad),
        all_ws(close),
    ensures
        parse_str_elems(s, i, acc) == Some(
            (acc + items, i + emit_str_items(items, pad).len() + close.len() + 1),
        ),
    decreases items.len(),
{
    reveal_strlit("]");
    reveal_strlit(",");
    if items.len() == 1 {
        let p = emit_str_items(items, pad) + close + "]"@;
        assert(p =~= (pad + emit_string(items[0])) + (close + "]"@));
        lemma_piece_split(s, i, pad + emit_string(items[0]), close + "]"@);
        lemma_string_emit(s, i, pad, items[0]);
        let q = i + pad.len() + emit_string(items[0]).len();
        lemma_piece_split(s, q, close, "]"@);
        lemma_piece_index(s, q + close.len(), "]"@, 0);
        lemma_skip_ws_piece(s, q, close);
        assert(acc.push(items[0]) =~= acc + items);
    } else {
        let p = emit_str_items(items, pad) + close + "]"@;
        let rest = emit_str_items(items.skip(1), pad);
        assert(emit_str_items(items, pad) == pad + emit_string(items[0]) + ","@ + rest);
        assert(p =~= (pad + emit_string(items[0])) + (","@ + (rest + close + "]"@)));
        lemma_piece_split(s, i, pad + emit_string(items[0]), ","@ + (rest + close + "]"@));
        lemma_string_emit(s, i, pad, items[0]);
        let q = i + pad.len() + emit_string(items[0]).len();
        assert(","@ + (rest + close + "]"@) =~= seq![','] + (rest + close + "]"@));
        lemma_piece_split(s, q, seq![','], rest + close + "]"@);
        lemma_piece_index(s, q, seq![','], 0);
        lemma_skip_ws_from(s, q, q);
        lemma_str_items_emit(s, q + 1, items.skip(1), pad, close, acc.push(items[0]));
        assert(acc.push(items[0]) + items.skip(1) =~= acc + items);
    }
}



proof fn lemma_empty_piece(s: Seq<char>, i: int)
    requires
        0 <= i <= s.len(),
    ensures
        piece_at(s, i, Seq::<char>::empty()),
{
    assert(s.subrange(i, i) =~= Seq::<char>::empty());
}

#[verifier::rlimit(100)]


proof fn lemma_piece_join(s: Seq<char>, i: int, a: Seq<char>, b: Seq<char>)
    requires
        piece_at(s, i, a),
        piece_at(s, i + a.len(), b),
    ensures
        piece_at(s, i, a + b),
{
    assert forall|k: int| 0 <= k < (a + b).len() implies s.subrange(i, i + (a + b).len())[k] == (a
        + b)[k] by {
        if k < a.len() {
            assert(s.subrange(i, i + a.len())[k] == a[k]);
        } else {
            assert(s.subrange(i + a.len(), i + a.len() + b.len())[k - a.len()] == b[k - a.len()]);
        }
    }
    assert(s.subrange(i, i + (a + b).len()) =~= a + b);
}


proof fn lemma_parse_more_at(s: Seq<char>, i: int, sepws: Seq<char>, sc: char)
    requires
        piece_at(s, i, sepws),
        all_ws(sepws),
        piece_at(s, i + sepws.len(), seq![sc]),
        sc == ',' || sc == '}',
    ensures
        parse_more(s, i) == Some((sc == ',', i + sepws.len() + 1)),
{
    lemma_piece_index(s, i + sepws.len(), seq![sc], 0);
    lemma_skip_ws_piece(s, i, sepws);
}

#[verifier::rlimit(100)]
proof fn lemma_str_array_of_emit(s: Seq<char>, i: int, pad: Seq<char>, items: Seq<Seq<char>>, epad0: Seq<char>, close0: Seq<char>)
    requires
        piece_at(s, i, pad + emit_str_list(items, epad0, close0)),
        all_ws(pad),
        all_ws(epad0),
        all_ws(close0),
    ensures
        parse_str_array(s, i) == Some((items, i + pad.len() + emit_str_list(items, epad0, close0).len())),
{
    reveal_strlit("[]");
    reveal_strlit("[");
    reveal_strlit("]");
    reveal_strlit("\"");
    reveal_strlit("{");
    lemma_pads_ws();
    let lst = emit_str_list(items, epad0, close0);
    if items.len() == 0 {
        assert(pad + lst =~= (pad + seq!['[']) + seq![']']);
        lemma_piece_split(s, i, pad + seq!['['], seq![']']);
        lemma_piece_split(s, i, pad, seq!['[']);
        lemma_token_piece(s, i, pad, '[');
        let a = i + pad.len();
        lemma_piece_index(s, a + 1, seq![']'], 0);
        lemma_skip_ws_from(s, a + 1, a + 1);
    } else {
        let body = emit_str_items(items, epad0);
        let epad = epad0;
        let close = close0;
        assert(lst == "["@ + body + close + "]"@);
        assert(pad + lst =~= (pad + seq!['[']) + (body + (close + "]"@)));
        lemma_piece_split(s, i, pad + seq!['['], body + (close + "]"@));
        lemma_piece_split(s, i, pad, seq!['[']);
        lemma_token_piece(s, i, pad, '[');
        let a = i + pad.len();
        assert(emit_string(items[0])[0] == '"');
        assert forall|k: int| 0 <= k < epad.len() implies body[k] == epad[k] by {}
        assert(body[epad.len() as int] == '"');
        assert(body =~= epad + body.skip(epad.len() as int));
        assert(body + (close + "]"@) =~= epad + (body.skip(epad.len() as int) + (close + "]"@)));
        lemma_piece_split(s, a + 1, epad, body.skip(epad.len() as int) + (close + "]"@));
        lemma_piece_index(s, a + 1 + epad.len(), body.skip(epad.len() as int) + (close + "]"@), 0);
        assert(s[a + 1 + epad.len()] == '"');
        lemma_skip_ws_piece(s, a + 1, epad);
        assert(body + (close + "]"@) =~= body + close + "]"@);
        lemma_str_items_emit(s, a + 1, items, epad, close, Seq::empty());
        assert(Seq::empty() + items =~= items);
    }
}

proof fn lemma_doc_keys()
    ensures
        "build_targets"@ != "workspace"@,
        "current_build_target"@ != "workspace"@,
        "current_build_target"@ != "build_targets"@,
        "builds"@ != "workspace"@,
        "builds"@ != "build_targets"@,
        "builds"@ != "current_build_target"@,
        "runs"@ != "workspace"@,
        "runs"@ != "build_targets"@,
        "runs"@ != "current_build_target"@,
        "runs"@ != "builds"@,
        "configurations"@ != "workspace"@,
        "configurations"@ != "build_targets"@,
        "configurations"@ != "current_build_target"@,
        "configurations"@ != "builds"@,
        "configurations"@ != "runs"@,
{
    reveal_strlit("workspace");
    reveal_strlit("build_targets");
    reveal_strlit("current_build_target");
    reveal_strlit("builds");
    reveal_strlit("runs");
    reveal_strlit("configurations");
    assert("workspace"@.len() == 9);
    assert("build_targets"@.len() == 13);
    assert("current_build_target"@.len() == 20);
    assert("builds"@.len() == 6);
    assert("runs"@.len() == 4);
    assert("configurations"@.len() == 14);
}

proof fn lemma_entry_keys()
    ensures
        "command"@ != "name"@,
        "args"@ != "name"@,
        "args"@ != "command"@,
        "pre_build"@ != "name"@,
        "pre_build"@ != "command"@,
        "pre_build"@ != "args"@,
{
    reveal_strlit("name");
    reveal_strlit("command");
    reveal_strlit("args");
    reveal_strlit("pre_build");
    assert("name"@.len() == 4);
    assert("command"@.len() == 7);
    assert("args"@.len() == 4);
    assert("pre_build"@.len() == 9);
    assert("args"@[0] != "name"@[0]);
}

#[verifier::rlimit(100)]
proof fn lemma_doc_step_workspace(
    s: Seq<char>,
    i: int,
    lead: Seq<char>,
    acc: DocParts,
    v: Seq<char>,
    sepws: Seq<char>,
    sc: char,
)
    requires
        acc.workspace is None,
        piece_at(s, i, lead + emit_string("workspace"@) + ": "@ + emit_string(v)),
        all_ws(lead),
        piece_at(s, i + (lead + emit_string("workspace"@) + ": "@ + emit_string(v)).len(), sepws),
        all_ws(sepws),
        piece_at(
            s,
            i + (lead + emit_string("workspace"@) + ": "@ + emit_string(v)).len() + sepws.len(),
            seq![sc],
        ),
        sc == ',' || sc == '}',
    ensures
        parse_doc_members(s, i, acc) == (if sc == ',' {
            parse_doc_members(
                s,
                i + (lead + emit_string("workspace"@) + ": "@ + emit_string(v)).len() + sepws.len() + 1,
                DocParts { workspace: Some(v), ..acc },
            )
        } else {
            Some(
                (
                    DocParts { workspace: Some(v), ..acc },
                    i + (lead + emit_string("workspace"@) + ": "@ + emit_string(v)).len() + sepws.len() + 1,
                ),
            )
        }),
{
    reveal_strlit(": ");
    reveal_strlit(" ");
    lemma_pads_ws();
    lemma_doc_keys();
    let p = lead + emit_string("workspace"@) + ": "@ + emit_string(v);
    assert(p =~= (lead + emit_string("workspace"@)) + (": "@ + emit_string(v)));
    lemma_piece_split(s, i, lead + emit_string("workspace"@), ": "@ + emit_string(v));
    lemma_string_emit(s, i, lead, "workspace"@);
    let q = i + lead.len() + emit_string("workspace"@).len();
    assert(": "@ + emit_string(v) =~= seq![':'] + (" "@ + emit_string(v)));
    lemma_piece_split(s, q, seq![':'], " "@ + emit_string(v));
    lemma_empty_piece(s, q);
    lemma_token_piece(s, q, Seq::empty(), ':');
    lemma_string_emit(s, q + 1, " "@, v);
    lemma_parse_more_at(s, i + p.len(), sepws, sc);
}

#[verifier::rlimit(100)]
proof fn lemma_doc_step_build_targets(
    s: Seq<char>,
    i: int,
    lead: Seq<char>,
    acc: DocParts,
    v: Seq<Seq<char>>,
    sepws: Seq<char>,
    sc: char,
)
    requires
        acc.build_targets is None,
        piece_at(s, i, lead + emit_string("build_targets"@) + ": "@ + emit_str_list(v, pad_elem(), pad_top())),
        all_ws(lead),
        piece_at(s, i + (lead + emit_string("build_targets"@) + ": "@ + emit_str_list(v, pad_elem(), pad_top())).len(), sepws),
        all_ws(sepws),
        piece_at(
            s,
            i + (lead + emit_string("build_targets"@) + ": "@ + emit_str_list(v, pad_elem(), pad_top())).len() + sepws.len(),
            seq![sc],
        ),
        sc == ',' || sc == '}',
    ensures
        parse_doc_members(s, i, acc) == (if sc == ',' {
            parse_doc_members(
                s,
                i + (lead + emit_string("build_targets"@) + ": "@ + emit_str_list(v, pad_elem(), pad_top())).len() + sepws.len() + 1,
                DocParts { build_targets: Some(v), ..acc },
            )
        } else {
            Some(
                (
                    DocParts { build_targets: Some(v), ..acc },
                    i + (lead + emit_string("build_targets"@) + ": "@ + emit_str_list(v, pad_elem(), pad_top())).len() + sepws.len() + 1,
                ),
            )
        }),
{
    reveal_strlit(": ");
    reveal_strlit(" ");
    lemma_pads_ws();
    lemma_doc_keys();
    let p = lead + emit_string("build_targets"@) + ": "@ + emit_str_list(v, pad_elem(), pad_top());
    assert(p =~= (lead + emit_string("build_targets"@)) + (": "@ + emit_str_list(v, pad_elem(), pad_top())));
    lemma_piece_split(s, i, lead + emit_string("build_targets"@), ": "@ + emit_str_list(v, pad_elem(), pad_top()));
    lemma_string_emit(s, i, lead, "build_targets"@);
    let q = i + lead.len() + emit_string("build_targets"@).len();
    assert(": "@ + emit_str_list(v, pad_elem(), pad_top()) =~= seq![':'] + (" "@ + emit_str_list(v, pad_elem(), pad_top())));
    lemma_piece_split(s, q, seq![':'], " "@ + emit_str_list(v, pad_elem(), pad_top()));
    lemma_empty_piece(s, q);
    lemma_token_piece(s, q, Seq::empty(), ':');
    lemma_str_array_of_emit(s, q + 1, " "@, v, pad_elem(), pad_top());
    lemma_parse_more_at(s, i + p.len(), sepws, sc);
}

#[verifier::rlimit(100)]
proof fn lemma_doc_step_current(
    s: Seq<char>,
    i: int,
    lead: Seq<char>,
    acc: DocParts,
    v: Seq<char>,
    sepws: Seq<char>,
    sc: char,
)
    requires
        acc.current_build_target is None,
        piece_at(s, i, lead + emit_string("current_build_target"@) + ": "@ + emit_string(v)),
        all_ws(lead),
        piece_at(s, i + (lead + emit_string("current_build_target"@) + ": "@ + emit_string(v)).len(), sepws),
        all_ws(sepws),
        piece_at(
            s,
            i + (lead + emit_string("current_build_target"@) + ": "@ + emit_string(v)).len() + sepws.len(),
            seq![sc],
        ),
        sc == ',' || sc == '}',
    ensures
        parse_doc_members(s, i, acc) == (if sc == ',' {
            parse_doc_members(
                s,
                i + (lead + emit_string("current_build_target"@) + ": "@ + emit_string(v)).len() + sepws.len() + 1,
                DocParts { current_build_target: Some(v), ..acc },
            )
        } else {
            Some(
                (
                    DocParts { current_build_target: Some(v), ..acc },
                    i + (lead + emit_string("current_build_target"@) + ": "@ + emit_string(v)).len() + sepws.len() + 1,
                ),
            )
        }),
{
    reveal_strlit(": ");
    reveal_strlit(" ");
    lemma_pads_ws();
    lemma_doc_keys();
    let p = lead + emit_string("current_build_target"@) + ": "@ + emit_string(v);
    assert(p =~= (lead + emit_string("current_build_target"@)) + (": "@ + emit_string(v)));
    lemma_piece_split(s, i, lead + emit_string("current_build_target"@), ": "@ + emit_string(v));
    lemma_string_emit(s, i, lead, "current_build_target"@);
    let q = i + lead.len() + emit_string("current_build_target"@).len();
    assert(": "@ + emit_string(v) =~= seq![':'] + (" "@ + emit_string(v)));
    lemma_piece_split(s, q, seq![':'], " "@ + emit_string(v));
    lemma_empty_piece(s, q);
    lemma_token_piece(s, q, Seq::empty(), ':');
    lemma_string_emit(s, q + 1, " "@, v);
    lemma_parse_more_at(s, i + p.len(), sepws, sc);
}

#[verifier::rlimit(100)]
proof fn lemma_doc_step_builds(
    s: Seq<char>,
    i: int,
    lead: Seq<char>,
    acc: DocParts,
    v: Seq<CmdModel>,
    sepws: Seq<char>,
    sc: char,
)
    requires
        acc.builds is None,
        piece_at(s, i, lead + emit_string("builds"@) + ": "@ + emit_cmd_list(v)),
        all_ws(lead),
        piece_at(s, i + (lead + emit_string("builds"@) + ": "@ + emit_cmd_list(v)).len(), sepws),
        all_ws(sepws),
        piece_at(
            s,
            i + (lead + emit_string("builds"@) + ": "@ + emit_cmd_list(v)).len() + sepws.len(),
            seq![sc],
        ),
        sc == ',' || sc == '}',
    ensures
        parse_doc_members(s, i, acc) == (if sc == ',' {
            parse_doc_members(
                s,
                i + (lead + emit_string("builds"@) + ": "@ + emit_cmd_list(v)).len() + sepws.len() + 1,
                DocParts { builds: Some(v), ..acc },
            )
        } else {
            Some(
                (
                    DocParts { builds: Some(v), ..acc },
                    i + (lead + emit_string("builds"@) + ": "@ + emit_cmd_list(v)).len() + sepws.len() + 1,
                ),
            )
        }),
{
    reveal_strlit(": ");
    reveal_strlit(" ");
    lemma_pads_ws();
    lemma_doc_keys();
    let p = lead + emit_string("builds"@) + ": "@ + emit_cmd_list(v);
    assert(p =~= (lead + emit_string("builds"@)) + (": "@ + emit_cmd_list(v)));
    lemma_piece_split(s, i, lead + emit_string("builds"@), ": "@ + emit_cmd_list(v));
    lemma_string_emit(s, i, lead, "builds"@);
    let q = i + lead.len() + emit_string("builds"@).len();
    assert(": "@ + emit_cmd_list(v) =~= seq![':'] + (" "@ + emit_cmd_list(v)));
    lemma_piece_split(s, q, seq![':'], " "@ + emit_cmd_list(v));
    lemma_empty_piece(s, q);
    lemma_token_piece(s, q, Seq::empty(), ':');
    lemma_cmd_array_of_emit(s, q + 1, " "@, v);
    lemma_parse_more_at(s, i + p.len(), sepws, sc);
}

#[verifier::rlimit(100)]
proof fn lemma_doc_step_runs(
    s: Seq<char>,
    i: int,
    lead: Seq<char>,
    acc: DocParts,
    v: Seq<RunModel>,
    sepws: Seq<char>,
    sc: char,
)
    requires
        acc.runs is None,
        piece_at(s, i, lead + emit_string("runs"@) + ": "@ + emit_run_list(v)),
        all_ws(lead),
        piece_at(s, i + (lead + emit_string("runs"@) + ": "@ + emit_run_list(v)).len(), sepws),
        all_ws(sepws),
        piece_at(
            s,
            i + (lead + emit_string("runs"@) + ": "@ + emit_run_list(v)).len() + sepws.len(),
            seq![sc],
        ),
        sc == ',' || sc == '}',
    ensures
        parse_doc_members(s, i, acc) == (if sc == ',' {
            parse_doc_members(
                s,
                i + (lead + emit_string("runs"@) + ": "@ + emit_run_list(v)).len() + sepws.len() + 1,
                DocParts { runs: Some(v), ..acc },
            )
        } else {
            Some(
                (
                    DocParts { runs: Some(v), ..acc },
                    i + (lead + emit_string("runs"@) + ": "@ + emit_run_list(v)).len() + sepws.len() + 1,
                ),
            )
        }),
{
    reveal_strlit(": ");
    reveal_strlit(" ");
    lemma_pads_ws();
    lemma_doc_keys();
    let p = lead + emit_string("runs"@) + ": "@ + emit_run_list(v);
    assert(p =~= (lead + emit_string("runs"@)) + (": "@ + emit_run_list(v)));
    lemma_piece_split(s, i, lead + emit_string("runs"@), ": "@ + emit_run_list(v));
    lemma_string_emit(s, i, lead, "runs"@);
    let q = i + lead.len() + emit_string("runs"@).len();
    assert(": "@ + emit_run_list(v) =~= seq![':'] + (" "@ + emit_run_list(v)));
    lemma_piece_split(s, q, seq![':'], " "@ + emit_run_list(v));
    lemma_empty_piece(s, q);
    lemma_token_piece(s, q, Seq::empty(), ':');
    lemma_run_array_of_emit(s, q + 1, " "@, v);
    lemma_parse_more_at(s, i + p.len(), sepws, sc);
}

#[verifier::rlimit(100)]
proof fn lemma_doc_step_configurations(
    s: Seq<char>,
    i: int,
    lead: Seq<char>,
    acc: DocParts,
    v: Seq<CmdModel>,
    sepws: Seq<char>,
    sc: char,
)
    requires
        acc.configurations is None,
        piece_at(s, i, lead + emit_string("configurations"@) + ": "@ + emit_cmd_list(v)),
        all_ws(lead),
        piece_at(s, i + (lead + emit_string("configurations"@) + ": "@ + emit_cmd_list(v)).len(), sepws),
        all_ws(sepws),
        piece_at(
            s,
            i + (lead + emit_string("configurations"@) + ": "@ + emit_cmd_list(v)).len() + sepws.len(),
            seq![sc],
        ),
        sc == ',' || sc == '}',
    ensures
        parse_doc_members(s, i, acc) == (if sc == ',' {
            parse_doc_members(
                s,
                i + (lead + emit_string("configurations"@) + ": "@ + emit_cmd_list(v)).len() + sepws.len() + 1,
                DocParts { configurations: Some(v), ..acc },
            )
        } else {
            Some(
                (
                    DocParts { configurations: Some(v), ..acc },
                    i + (lead + emit_string("configurations"@) + ": "@ + emit_cmd_list(v)).len() + sepws.len() + 1,
                ),
            )
        }),
{
    reveal_strlit(": ");
    reveal_strlit(" ");
    lemma_pads_ws();
    lemma_doc_keys();
    let p = lead + emit_string("configurations"@) + ": "@ + emit_cmd_list(v);
    assert(p =~= (lead + emit_string("configurations"@)) + (": "@ + emit_cmd_list(v)));
    lemma_piece_split(s, i, lead + emit_string("configurations"@), ": "@ + emit_cmd_list(v));
    lemma_string_emit(s, i, lead, "configurations"@);
    let q = i + lead.len() + emit_string("configurations"@).len();
    assert(": "@ + emit_cmd_list(v) =~= seq![':'] + (" "@ + emit_cmd_list(v)));
    lemma_piece_split(s, q, seq![':'], " "@ + emit_cmd_list(v));
    lemma_empty_piece(s, q);
    lemma_token_piece(s, q, Seq::empty(), ':');
    lemma_cmd_array_of_emit(s, q + 1, " "@, v);
    lemma_parse_more_at(s, i + p.len(), sepws, sc);
}

#[verifier::rlimit(100)]
proof fn lemma_cmd_step_name(
    s: Seq<char>,
    i: int,
    lead: Seq<char>,
    acc: CmdParts,
    v: Seq<char>,
    sepws: Seq<char>,
    sc: char,
)
    requires
        acc.name is None,
        piece_at(s, i, lead + emit_string("name"@) + ": "@ + emit_string(v)),
        all_ws(lead),
        piece_at(s, i + (lead + emit_string("name"@) + ": "@ + emit_string(v)).len(), sepws),
        all_ws(sepws),
        piece_at(
            s,
            i + (lead + emit_string("name"@) + ": "@ + emit_string(v)).len() + sepws.len(),
            seq![sc],
        ),
        sc == ',' || sc == '}',
    ensures
        parse_cmd_members(s, i, acc) == (if sc == ',' {
            parse_cmd_members(
                s,
                i + (lead + emit_string("name"@) + ": "@ + emit_string(v)).len() + sepws.len() + 1,
                CmdParts { name: Some(v), ..acc },
            )
        } else {
            Some(
                (
                    CmdParts { name: Some(v), ..acc },
                    i + (lead + emit_string("name"@) + ": "@ + emit_string(v)).len() + sepws.len() + 1,
                ),
            )
        }),
{
    reveal_strlit(": ");
    reveal_strlit(" ");
    lemma_pads_ws();
    lemma_entry_keys();
    let p = lead + emit_string("name"@) + ": "@ + emit_string(v);
    assert(p =~= (lead + emit_string("name"@)) + (": "@ + emit_string(v)));
    lemma_piece_split(s, i, lead + emit_string("name"@), ": "@ + emit_string(v));
    lemma_string_emit(s, i, lead, "name"@);
    let q = i + lead.len() + emit_string("name"@).len();
    assert(": "@ + emit_string(v) =~= seq![':'] + (" "@ + emit_string(v)));
    lemma_piece_split(s, q, seq![':'], " "@ + emit_string(v));
    lemma_empty_piece(s, q);
    lemma_token_piece(s, q, Seq::empty(), ':');
    lemma_string_emit(s, q + 1, " "@, v);
    lemma_parse_more_at(s, i + p.len(), sepws, sc);
}

#[verifier::rlimit(100)]
proof fn lemma_cmd_step_command(
    s: Seq<char>,
    i: int,
    lead: Seq<char>,
    acc: CmdParts,
    v: Seq<char>,
    sepws: Seq<char>,
    sc: char,
)
    requires
        acc.command is None,
        piece_at(s, i, lead + emit_string("command"@) + ": "@ + emit_string(v)),
        all_ws(lead),
        piece_at(s, i + (lead + emit_string("command"@) + ": "@ + emit_string(v)).len(), sepws),
        all_ws(sepws),
        piece_at(
            s,
            i + (lead + emit_string("command"@) + ": "@ + emit_string(v)).len() + sepws.len(),
            seq![sc],
        ),
        sc == ',' || sc == '}',
    ensures
        parse_cmd_members(s, i, acc) == (if sc == ',' {
            parse_cmd_members(
                s,
                i + (lead + emit_string("command"@) + ": "@ + emit_string(v)).len() + sepws.len() + 1,
                CmdParts { command: Some(v), ..acc },
            )
        } else {
            Some(
                (
                    CmdParts { command: Some(v), ..acc },
                    i + (lead + emit_string("command"@) + ": "@ + emit_string(v)).len() + sepws.len() + 1,
                ),
            )
        }),
{
    reveal_strlit(": ");
    reveal_strlit(" ");
    lemma_pads_ws();
    lemma_entry_keys();
    let p = lead + emit_string("command"@) + ": "@ + emit_string(v);
    assert(p =~= (lead + emit_string("command"@)) + (": "@ + emit_string(v)));
    lemma_piece_split(s, i, lead + emit_string("command"@), ": "@ + emit_string(v));
    lemma_string_emit(s, i, lead, "command"@);
    let q = i + lead.len() + emit_string("command"@).len();
    assert(": "@ + emit_string(v) =~= seq![':'] + (" "@ + emit_string(v)));
    lemma_piece_split(s, q, seq![':'], " "@ + emit_string(v));
    lemma_empty_piece(s, q);
    lemma_token_piece(s, q, Seq::empty(), ':');
    lemma_string_emit(s, q + 1, " "@, v);
    lemma_parse_more_at(s, i + p.len(), sepws, sc);
}

#[verifier::rlimit(100)]
proof fn lemma_cmd_step_args(
    s: Seq<char>,
    i: int,
    lead: Seq<char>,
    acc: CmdParts,
    v: Seq<Seq<char>>,
    sepws: Seq<char>,
    sc: char,
)
    requires
        acc.args is None,
        piece_at(s, i, lead + emit_string("args"@) + ": "@ + emit_str_list(v, pad_arg(), pad_key())),
        all_ws(lead),
        piece_at(s, i + (lead + emit_string("args"@) + ": "@ + emit_str_list(v, pad_arg(), pad_key())).len(), sepws),
        all_ws(sepws),
        piece_at(
            s,
            i + (lead + emit_string("args"@) + ": "@ + emit_str_list(v, pad_arg(), pad_key())).len() + sepws.len(),
            seq![sc],
        ),
        sc == ',' || sc == '}',
    ensures
        parse_cmd_members(s, i, acc) == (if sc == ',' {
            parse_cmd_members(
                s,
                i + (lead + emit_string("args"@) + ": "@ + emit_str_list(v, pad_arg(), pad_key())).len() + sepws.len() + 1,
                CmdParts { args: Some(v), ..acc },
            )
        } else {
            Some(
                (
                    CmdParts { args: Some(v), ..acc },
                    i + (lead + emit_string("args"@) + ": "@ + emit_str_list(v, pad_arg(), pad_key())).len() + sepws.len() + 1,
                ),
            )
        }),
{
    reveal_strlit(": ");
    reveal_strlit(" ");
    lemma_pads_ws();
    lemma_entry_keys();
    let p = lead + emit_string("args"@) + ": "@ + emit_str_list(v, pad_arg(), pad_key());
    assert(p =~= (lead + emit_string("args"@)) + (": "@ + emit_str_list(v, pad_arg(), pad_key())));
    lemma_piece_split(s, i, lead + emit_string("args"@), ": "@ + emit_str_list(v, pad_arg(), pad_key()));
    lemma_string_emit(s, i, lead, "args"@);
    let q = i + lead.len() + emit_string("args"@).len();
    assert(": "@ + emit_str_list(v, pad_arg(), pad_key()) =~= seq![':'] + (" "@ + emit_str_list(v, pad_arg(), pad_key())));
    lemma_piece_split(s, q, seq![':'], " "@ + emit_str_list(v, pad_arg(), pad_key()));
    lemma_empty_piece(s, q);
    lemma_token_piece(s, q, Seq::empty(), ':');
    lemma_str_array_of_emit(s, q + 1, " "@, v, pad_arg(), pad_key());
    lemma_parse_more_at(s, i + p.len(), sepws, sc);
}

#[verifier::rlimit(100)]
proof fn lemma_run_step_name(
    s: Seq<char>,
    i: int,
    lead: Seq<char>,
    acc: RunParts,
    v: Seq<char>,
    sepws: Seq<char>,
    sc: char,
)
    requires
        acc.name is None,
        piece_at(s, i, lead + emit_string("name"@) + ": "@ + emit_string(v)),
        all_ws(lead),
        piece_at(s, i + (lead + emit_string("name"@) + ": "@ + emit_string(v)).len(), sepws),
        all_ws(sepws),
        piece_at(
            s,
            i + (lead + emit_string("name"@) + ": "@ + emit_string(v)).len() + sepws.len(),
            seq![sc],
        ),
        sc == ',' || sc == '}',
    ensures
        parse_run_members(s, i, acc) == (if sc == ',' {
            parse_run_members(
                s,
                i + (lead + emit_string("name"@) + ": "@ + emit_string(v)).len() + sepws.len() + 1,
                RunParts { name: Some(v), ..acc },
            )
        } else {
            Some(
                (
                    RunParts { name: Some(v), ..acc },
                    i + (lead + emit_string("name"@) + ": "@ + emit_string(v)).len() + sepws.len() + 1,
                ),
            )
        }),
{
    reveal_strlit(": ");
    reveal_strlit(" ");
    lemma_pads_ws();
    lemma_entry_keys();
    let p = lead + emit_string("name"@) + ": "@ + emit_string(v);
    assert(p =~= (lead + emit_string("name"@)) + (": "@ + emit_string(v)));
    lemma_piece_split(s, i, lead + emit_string("name"@), ": "@ + emit_string(v));
    lemma_string_emit(s, i, lead, "name"@);
    let q = i + lead.len() + emit_string("name"@).len();
    assert(": "@ + emit_string(v) =~= seq![':'] + (" "@ + emit_string(v)));
    lemma_piece_split(s, q, seq![':'], " "@ + emit_string(v));
    lemma_empty_piece(s, q);
    lemma_token_piece(s, q, Seq::empty(), ':');
    lemma_string_emit(s, q + 1, " "@, v);
    lemma_parse_more_at(s, i + p.len(), sepws, sc);
}

#[verifier::rlimit(100)]
proof fn lemma_run_step_command(
    s: Seq<char>,
    i: int,
    lead: Seq<char>,
    acc: RunParts,
    v: Seq<char>,
    sepws: Seq<char>,
    sc: char,
)
    requires
        acc.command is None,
        piece_at(s, i, lead + emit_string("command"@) + ": "@ + emit_string(v)),
        all_ws(lead),
        piece_at(s, i + (lead + emit_string("command"@) + ": "@ + emit_string(v)).len(), sepws),
        all_ws(sepws),
        piece_at(
            s,
            i + (lead + emit_string("command"@) + ": "@ + emit_string(v)).len() + sepws.len(),
            seq![sc],
        ),
        sc == ',' || sc == '}',
    ensures
        parse_run_members(s, i, acc) == (if sc == ',' {
            parse_run_members(
                s,
                i + (lead + emit_string("command"@) + ": "@ + emit_string(v)).len() + sepws.len() + 1,
                RunParts { command: Some(v), ..acc },
            )
        } else {
            Some(
                (
                    RunParts { command: Some(v), ..acc },
                    i + (lead + emit_string("command"@) + ": "@ + emit_string(v)).len() + sepws.len() + 1,
                ),
            )
        }),
{
    reveal_strlit(": ");
    reveal_strlit(" ");
    lemma_pads_ws();
    lemma_entry_keys();
    let p = lead + emit_string("command"@) + ": "@ + emit_string(v);
    assert(p =~= (lead + emit_string("command"@)) + (": "@ + emit_string(v)));
    lemma_piece_split(s, i, lead + emit_string("command"@), ": "@ + emit_string(v));
    lemma_string_emit(s, i, lead, "command"@);
    let q = i + lead.len() + emit_string("command"@).len();
    assert(": "@ + emit_string(v) =~= seq![':'] + (" "@ + emit_string(v)));
    lemma_piece_split(s, q, seq![':'], " "@ + emit_string(v));
    lemma_empty_piece(s, q);
    lemma_token_piece(s, q, Seq::empty(), ':');
    lemma_string_emit(s, q + 1, " "@, v);
    lemma_parse_more_at(s, i + p.len(), sepws, sc);
}

#[verifier::rlimit(100)]
proof fn lemma_run_step_args(
    s: Seq<char>,
    i: int,
    lead: Seq<char>,
    acc: RunParts,
    v: Seq<Seq<char>>,
    sepws: Seq<char>,
    sc: char,
)
    requires
        acc.args is None,
        piece_at(s, i, lead + emit_string("args"@) + ": "@ + emit_str_list(v, pad_arg(), pad_key())),
        all_ws(lead),
        piece_at(s, i + (lead + emit_string("args"@) + ": "@ + emit_str_list(v, pad_arg(), pad_key())).len(), sepws),
        all_ws(sepws),
        piece_at(
            s,
            i + (lead + emit_string("args"@) + ": "@ + emit_str_list(v, pad_arg(), pad_key())).len() + sepws.len(),
            seq![sc],
        ),
        sc == ',' || sc == '}',
    ensures
        parse_run_members(s, i, acc) == (if sc == ',' {
            parse_run_members(
                s,
                i + (lead + emit_string("args"@) + ": "@ + emit_str_list(v, pad_arg(), pad_key())).len() + sepws.len() + 1,
                RunParts { args: Some(v), ..acc },
            )
        } else {
            Some(
                (
                    RunParts { args: Some(v), ..acc },
                    i + (lead + emit_string("args"@) + ": "@ + emit_str_list(v, pad_arg(), pad_key())).len() + sepws.len() + 1,
                ),
            )
        }),
{
    reveal_strlit(": ");
    reveal_strlit(" ");
    lemma_pads_ws();
    lemma_entry_keys();
    let p = lead + emit_string("args"@) + ": "@ + emit_str_list(v, pad_arg(), pad_key());
    assert(p =~= (lead + emit_string("args"@)) + (": "@ + emit_str_list(v, pad_arg(), pad_key())));
    lemma_piece_split(s, i, lead + emit_string("args"@), ": "@ + emit_str_list(v, pad_arg(), pad_key()));
    lemma_string_emit(s, i, lead, "args"@);
    let q = i + lead.len() + emit_string("args"@).len();
    assert(": "@ + emit_str_list(v, pad_arg(), pad_key()) =~= seq![':'] + (" "@ + emit_str_list(v, pad_arg(), pad_key())));
    lemma_piece_split(s, q, seq![':'], " "@ + emit_str_list(v, pad_arg(), pad_key()));
    lemma_empty_piece(s, q);
    lemma_token_piece(s, q, Seq::empty(), ':');
    lemma_str_array_of_emit(s, q + 1, " "@, v, pad_arg(), pad_key());
    lemma_parse_more_at(s, i + p.len(), sepws, sc);
}

#[verifier::rlimit(100)]
proof fn lemma_run_step_pre_build(
    s: Seq<char>,
    i: int,
    lead: Seq<char>,
    acc: RunParts,
    v: bool,
    sepws: Seq<char>,
    sc: char,
)
    requires
        acc.pre_build is None,
        piece_at(s, i, lead + emit_string("pre_build"@) + ": "@ + emit_bool(v)),
        all_ws(lead),
        piece_at(s, i + (lead + emit_string("pre_build"@) + ": "@ + emit_bool(v)).len(), sepws),
        all_ws(sepws),
        piece_at(
            s,
            i + (lead + emit_string("pre_build"@) + ": "@ + emit_bool(v)).len() + sepws.len(),
            seq![sc],
        ),
        sc == ',' || sc == '}',
    ensures
        parse_run_members(s, i, acc) == (if sc == ',' {
            parse_run_members(
                s,
                i + (lead + emit_string("pre_build"@) + ": "@ + emit_bool(v)).len() + sepws.len() + 1,
                RunParts { pre_build: Some(v), ..acc },
            )
        } else {
            Some(
                (
                    RunParts { pre_build: Some(v), ..acc },
                    i + (lead + emit_string("pre_build"@) + ": "@ + emit_bool(v)).len() + sepws.len() + 1,
                ),
            )
        }),
{
    reveal_strlit(": ");
    reveal_strlit(" ");
    lemma_pads_ws();
    lemma_entry_keys();
    let p = lead + emit_string("pre_build"@) + ": "@ + emit_bool(v);
    assert(p =~= (lead + emit_string("pre_build"@)) + (": "@ + emit_bool(v)));
    lemma_piece_split(s, i, lead + emit_string("pre_build"@), ": "@ + emit_bool(v));
    lemma_string_emit(s, i, lead, "pre_build"@);
    let q = i + lead.len() + emit_string("pre_build"@).len();
    assert(": "@ + emit_bool(v) =~= seq![':'] + (" "@ + emit_bool(v)));
    lemma_piece_split(s, q, seq![':'], " "@ + emit_bool(v));
    lemma_empty_piece(s, q);
    lemma_token_piece(s, q, Seq::empty(), ':');
    lemma_bool_emit(s, q + 1, " "@, v);
    lemma_parse_more_at(s, i + p.len(), sepws, sc);
}

#[verifier::rlimit(100)]
proof fn lemma_cmd_entry_emit(s: Seq<char>, i: int, pad: Seq<char>, c: CmdModel)
    requires
        piece_at(s, i, pad + emit_cmd_entry(c)),
        all_ws(pad),
    ensures
        parse_cmd_entry(s, i) == Some((c, i + pad.len() + emit_cmd_entry(c).len())),
{
    reveal_strlit("{");
    reveal_strlit("}");
    reveal_strlit(",");
    reveal_strlit(": ");
    lemma_pads_ws();
    let m1 = pad_key() + emit_string("name"@) + ": "@ + emit_string(c.name);
    let m2 = pad_key() + emit_string("command"@) + ": "@ + emit_string(c.command);
    let m3 = pad_key() + emit_string("args"@) + ": "@ + emit_str_list(c.args, pad_arg(), pad_key());
    let tail3 = m3 + (pad_elem() + seq!['}']);
    let tail2 = m2 + (seq![','] + tail3);
    let tail1 = m1 + (seq![','] + tail2);
    let e = emit_cmd_entry(c);
    assert(pad + e =~= (pad + seq!['{']) + tail1);
    lemma_piece_split(s, i, pad + seq!['{'], tail1);
    lemma_piece_split(s, i, pad, seq!['{']);
    lemma_token_piece(s, i, pad, '{');
    let j1 = i + pad.len() + 1;
    lemma_piece_split(s, j1, m1, seq![','] + tail2);
    lemma_piece_split(s, j1 + m1.len(), seq![','], tail2);
    lemma_empty_piece(s, j1 + m1.len());
    lemma_cmd_step_name(s, j1, pad_key(), cmd_parts_empty(), c.name, Seq::empty(), ',');
    let j2 = j1 + m1.len() + 1;
    lemma_piece_split(s, j2, m2, seq![','] + tail3);
    lemma_piece_split(s, j2 + m2.len(), seq![','], tail3);
    lemma_empty_piece(s, j2 + m2.len());
    lemma_cmd_step_command(s, j2, pad_key(), CmdParts { name: Some(c.name), ..cmd_parts_empty() }, c.command, Seq::empty(), ',');
    let j3 = j2 + m2.len() + 1;
    lemma_piece_split(s, j3, m3, pad_elem() + seq!['}']);
    lemma_piece_split(s, j3 + m3.len(), pad_elem(), seq!['}']);
    lemma_cmd_step_args(s, j3, pad_key(), CmdParts { command: Some(c.command), ..CmdParts { name: Some(c.name), ..cmd_parts_empty() } }, c.args, pad_elem(), '}');
}

#[verifier::rlimit(100)]
proof fn lemma_run_entry_tail(s: Seq<char>, j: int, acc: RunParts, c: RunModel)
    requires
        acc.args is None,
        acc.pre_build is None,
        piece_at(s, j, (pad_key() + emit_string("args"@) + ": "@ + emit_str_list(
            c.args,
            pad_arg(),
            pad_key(),
        )) + (seq![','] + ((pad_key() + emit_string("pre_build"@) + ": "@ + emit_bool(
            c.pre_build,
        )) + (pad_elem() + seq!['}'])))),
    ensures
        ({
            let m3 = pad_key() + emit_string("args"@) + ": "@ + emit_str_list(
                c.args,
                pad_arg(),
                pad_key(),
            );
            let m4 = pad_key() + emit_string("pre_build"@) + ": "@ + emit_bool(c.pre_build);
            parse_run_members(s, j, acc) == Some(
                (
                    RunParts { pre_build: Some(c.pre_build), ..RunParts { args: Some(c.args), ..acc } },
                    j + m3.len() + 1 + m4.len() + pad_elem().len() + 1,
                ),
            )
        }),
{
    reveal_strlit(",");
    reveal_strlit(": ");
    lemma_pads_ws();
    let m3 = pad_key() + emit_string("args"@) + ": "@ + emit_str_list(
        c.args,
        pad_arg(),
        pad_key(),
    );
    let m4 = pad_key() + emit_string("pre_build"@) + ": "@ + emit_bool(c.pre_build);
    let tail4 = m4 + (pad_elem() + seq!['}']);
    lemma_piece_split(s, j, m3, seq![','] + tail4);
    lemma_piece_split(s, j + m3.len(), seq![','], tail4);
    lemma_empty_piece(s, j + m3.len());
    lemma_run_step_args(s, j, pad_key(), acc, c.args, Seq::empty(), ',');
    let j4 = j + m3.len() + 1;
    lemma_piece_split(s, j4, m4, pad_elem() + seq!['}']);
    lemma_piece_split(s, j4 + m4.len(), pad_elem(), seq!['}']);
    lemma_run_step_pre_build(
        s,
        j4,
        pad_key(),
        RunParts { args: Some(c.args), ..acc },
        c.pre_build,
        pad_elem(),
        '}',
    );
}

#[verifier::rlimit(100)]
proof fn lemma_run_entry_mid(s: Seq<char>, j1: int, c: RunModel)
    requires
        piece_at(s, j1, (pad_key() + emit_string("name"@) + ": "@ + emit_string(c.name)) + (
        seq![','] + ((pad_key() + emit_string("command"@) + ": "@ + emit_string(c.command)) + (
        seq![','] + ((pad_key() + emit_string("args"@) + ": "@ + emit_str_list(
            c.args,
            pad_arg(),
            pad_key(),
        )) + (seq![','] + ((pad_key() + emit_string("pre_build"@) + ": "@ + emit_bool(
            c.pre_build,
        )) + (pad_elem() + seq!['}'])))))))),
    ensures
        ({
            let m1 = pad_key() + emit_string("name"@) + ": "@ + emit_string(c.name);
            let m2 = pad_key() + emit_string("command"@) + ": "@ + emit_string(c.command);
            let tail3 = (pad_key() + emit_string("args"@) + ": "@ + emit_str_list(
                c.args,
                pad_arg(),
                pad_key(),
            )) + (seq![','] + ((pad_key() + emit_string("pre_build"@) + ": "@ + emit_bool(
                c.pre_build,
            )) + (pad_elem() + seq!['}'])));
            &&& parse_run_members(s, j1, run_parts_empty()) == parse_run_members(
                s,
                j1 + m1.len() + 1 + m2.len() + 1,
                RunParts {
                    command: Some(c.command),
                    ..RunParts { name: Some(c.name), ..run_parts_empty() }
                },
            )
            &&& piece_at(s, j1 + m1.len() + 1 + m2.len() + 1, tail3)
        }),
{
    reveal_strlit(",");
    reveal_strlit(": ");
    lemma_pads_ws();
    let m1 = pad_key() + emit_string("name"@) + ": "@ + emit_string(c.name);
    let m2 = pad_key() + emit_string("command"@) + ": "@ + emit_string(c.command);
    let tail3 = (pad_key() + emit_string("args"@) + ": "@ + emit_str_list(
        c.args,
        pad_arg(),
        pad_key(),
    )) + (seq![','] + ((pad_key() + emit_string("pre_build"@) + ": "@ + emit_bool(c.pre_build)) + (
    pad_elem() + seq!['}'])));
    let tail2 = m2 + (seq![','] + tail3);
    lemma_piece_split(s, j1, m1, seq![','] + tail2);
    lemma_piece_split(s, j1 + m1.len(), seq![','], tail2);
    lemma_empty_piece(s, j1 + m1.len());
    lemma_run_step_name(s, j1, pad_key(), run_parts_empty(), c.name, Seq::empty(), ',');
    let j2 = j1 + m1.len() + 1;
    lemma_piece_split(s, j2, m2, seq![','] + tail3);
    lemma_piece_split(s, j2 + m2.len(), seq![','], tail3);
    lemma_empty_piece(s, j2 + m2.len());
    lemma_run_step_command(
        s,
        j2,
        pad_key(),
        RunParts { name: Some(c.name), ..run_parts_empty() },
        c.command,
        Seq::empty(),
        ',',
    );
}

#[verifier::rlimit(100)]
proof fn lemma_run_entry_open(s: Seq<char>, i: int, pad: Seq<char>, c: RunModel)
    requires
        piece_at(s, i, pad + emit_run_entry(c)),
        all_ws(pad),
    ensures
        parse_token(s, i, '{') == Some(i + pad.len() + 1),
        piece_at(s, i + pad.len() + 1, (pad_key() + emit_string("name"@) + ": "@ + emit_string(
            c.name,
        )) + (seq![','] + ((pad_key() + emit_string("command"@) + ": "@ + emit_string(
            c.command,
        )) + (seq![','] + ((pad_key() + emit_string("args"@) + ": "@ + emit_str_list(
            c.args,
            pad_arg(),
            pad_key(),
        )) + (seq![','] + ((pad_key() + emit_string("pre_build"@) + ": "@ + emit_bool(
            c.pre_build,
        )) + (pad_elem() + seq!['}'])))))))),
{
    reveal_strlit("{");
    reveal_strlit("}");
    reveal_strlit(",");
    reveal_strlit(": ");
    lemma_pads_ws();
    let m1 = pad_key() + emit_string("name"@) + ": "@ + emit_string(c.name);
    let m2 = pad_key() + emit_string("command"@) + ": "@ + emit_string(c.command);
    let m3 = pad_key() + emit_string("args"@) + ": "@ + emit_str_list(c.args, pad_arg(), pad_key());
    let m4 = pad_key() + emit_string("pre_build"@) + ": "@ + emit_bool(c.pre_build);
    let tail3 = m3 + (seq![','] + (m4 + (pad_elem() + seq!['}'])));
    let tail2 = m2 + (seq![','] + tail3);
    let tail1 = m1 + (seq![','] + tail2);
    let e = emit_run_entry(c);
    assert(pad + e =~= (pad + seq!['{']) + tail1);
    lemma_piece_split(s, i, pad + seq!['{'], tail1);
    lemma_piece_split(s, i, pad, seq!['{']);
    lemma_token_piece(s, i, pad, '{');
}

#[verifier::rlimit(100)]
proof fn lemma_run_entry_emit(s: Seq<char>, i: int, pad: Seq<char>, c: RunModel)
    requires
        piece_at(s, i, pad + emit_run_entry(c)),
        all_ws(pad),
    ensures
        parse_run_entry(s, i) == Some((c, i + pad.len() + emit_run_entry(c).len())),
{
    reveal_strlit("{");
    reveal_strlit("}");
    reveal_strlit(",");
    reveal_strlit(": ");
    lemma_pads_ws();
    let m1 = pad_key() + emit_string("name"@) + ": "@ + emit_string(c.name);
    let m2 = pad_key() + emit_string("command"@) + ": "@ + emit_string(c.command);
    lemma_run_entry_open(s, i, pad, c);
    let j1 = i + pad.len() + 1;
    lemma_run_entry_mid(s, j1, c);
    let j3 = j1 + m1.len() + 1 + m2.len() + 1;
    lemma_run_entry_tail(
        s,
        j3,
        RunParts { command: Some(c.command), ..RunParts { name: Some(c.name), ..run_parts_empty() } },
        c,
    );
    assert(RunModel {
        name: c.name,
        command: c.command,
        args: c.args,
        pre_build: c.pre_build,
    } == c);
}

#[verifier::rlimit(100)]
proof fn lemma_cmd_items_emit(s: Seq<char>, i: int, items: Seq<CmdModel>, acc: Seq<CmdModel>)
    requires
        items.len() >= 1,
        piece_at(s, i, emit_cmd_items(items) + pad_top() + "]"@),
    ensures
        parse_cmd_elems(s, i, acc) == Some(
            (acc + items, i + emit_cmd_items(items).len() + pad_top().len() + 1),
        ),
    decreases items.len(),
{
    reveal_strlit("]");
    reveal_strlit(",");
    lemma_pads_ws();
    if items.len() == 1 {
        let p = emit_cmd_items(items) + pad_top() + "]"@;
        assert(p =~= (pad_elem() + emit_cmd_entry(items[0])) + (pad_top() + seq![']']));
        lemma_piece_split(s, i, pad_elem() + emit_cmd_entry(items[0]), pad_top() + seq![']']);
        lemma_cmd_entry_emit(s, i, pad_elem(), items[0]);
        let q = i + pad_elem().len() + emit_cmd_entry(items[0]).len();
        lemma_piece_split(s, q, pad_top(), seq![']']);
        lemma_piece_index(s, q + pad_top().len(), seq![']'], 0);
        lemma_skip_ws_piece(s, q, pad_top());
        assert(acc.push(items[0]) =~= acc + items);
    } else {
        let rest = emit_cmd_items(items.skip(1));
        let p = emit_cmd_items(items) + pad_top() + "]"@;
        assert(p =~= (pad_elem() + emit_cmd_entry(items[0])) + (seq![','] + (rest + pad_top()
            + "]"@)));
        lemma_piece_split(s, i, pad_elem() + emit_cmd_entry(items[0]), seq![','] + (rest
            + pad_top() + "]"@));
        lemma_cmd_entry_emit(s, i, pad_elem(), items[0]);
        let q = i + pad_elem().len() + emit_cmd_entry(items[0]).len();
        lemma_piece_split(s, q, seq![','], rest + pad_top() + "]"@);
        lemma_piece_index(s, q, seq![','], 0);
        lemma_skip_ws_from(s, q, q);
        lemma_cmd_items_emit(s, q + 1, items.skip(1), acc.push(items[0]));
        assert(acc.push(items[0]) + items.skip(1) =~= acc + items);
    }
}

#[verifier::rlimit(100)]
proof fn lemma_run_items_emit(s: Seq<char>, i: int, items: Seq<RunModel>, acc: Seq<RunModel>)
    requires
        items.len() >= 1,
        piece_at(s, i, emit_run_items(items) + pad_top() + "]"@),
    ensures
        parse_run_elems(s, i, acc) == Some(
            (acc + items, i + emit_run_items(items).len() + pad_top().len() + 1),
        ),
    decreases items.len(),
{
    reveal_strlit("]");
    reveal_strlit(",");
    lemma_pads_ws();
    if items.len() == 1 {
        let p = emit_run_items(items) + pad_top() + "]"@;
        assert(p =~= (pad_elem() + emit_run_entry(items[0])) + (pad_top() + seq![']']));
        lemma_piece_split(s, i, pad_elem() + emit_run_entry(items[0]), pad_top() + seq![']']);
        lemma_run_entry_emit(s, i, pad_elem(), items[0]);
        let q = i + pad_elem().len() + emit_run_entry(items[0]).len();
        lemma_piece_split(s, q, pad_top(), seq![']']);
        lemma_piece_index(s, q + pad_top().len(), seq![']'], 0);
        lemma_skip_ws_piece(s, q, pad_top());
        assert(acc.push(items[0]) =~= acc + items);
    } else {
        let rest = emit_run_items(items.skip(1));
        let p = emit_run_items(items) + pad_top() + "]"@;
        assert(p =~= (pad_elem() + emit_run_entry(items[0])) + (seq![','] + (rest + pad_top()
            + "]"@)));
        lemma_piece_split(s, i, pad_elem() + emit_run_entry(items[0]), seq![','] + (rest
            + pad_top() + "]"@));
        lemma_run_entry_emit(s, i, pad_elem(), items[0]);
        let q = i + pad_elem().len() + emit_run_entry(items[0]).len();
        lemma_piece_split(s, q, seq![','], rest + pad_top() + "]"@);
        lemma_piece_index(s, q, seq![','], 0);
        lemma_skip_ws_from(s, q, q);
        lemma_run_items_emit(s, q + 1, items.skip(1), acc.push(items[0]));
        assert(acc.push(items[0]) + items.skip(1) =~= acc + items);
    }
}

#[verifier::rlimit(100)]

#[verifier::rlimit(100)]
proof fn lemma_cmd_array_of_emit(s: Seq<char>, i: int, pad: Seq<char>, items: Seq<CmdModel>)
    requires
        piece_at(s, i, pad + emit_cmd_list(items)),
        all_ws(pad),
    ensures
        parse_cmd_array(s, i) == Some((items, i + pad.len() + emit_cmd_list(items).len())),
{
    reveal_strlit("[]");
    reveal_strlit("[");
    reveal_strlit("]");
    reveal_strlit("\"");
    reveal_strlit("{");
    lemma_pads_ws();
    let lst = emit_cmd_list(items);
    if items.len() == 0 {
        assert(pad + lst =~= (pad + seq!['[']) + seq![']']);
        lemma_piece_split(s, i, pad + seq!['['], seq![']']);
        lemma_piece_split(s, i, pad, seq!['[']);
        lemma_token_piece(s, i, pad, '[');
        let a = i + pad.len();
        lemma_piece_index(s, a + 1, seq![']'], 0);
        lemma_skip_ws_from(s, a + 1, a + 1);
    } else {
        let body = emit_cmd_items(items);
        let epad = pad_elem();
        let close = pad_top();
        assert(lst == "["@ + body + close + "]"@);
        assert(pad + lst =~= (pad + seq!['[']) + (body + (close + "]"@)));
        lemma_piece_split(s, i, pad + seq!['['], body + (close + "]"@));
        lemma_piece_split(s, i, pad, seq!['[']);
        lemma_token_piece(s, i, pad, '[');
        let a = i + pad.len();
        assert(emit_cmd_entry(items[0])[0] == '{');
        assert forall|k: int| 0 <= k < epad.len() implies body[k] == epad[k] by {}
        assert(body[epad.len() as int] == '{');
        assert(body =~= epad + body.skip(epad.len() as int));
        assert(body + (close + "]"@) =~= epad + (body.skip(epad.len() as int) + (close + "]"@)));
        lemma_piece_split(s, a + 1, epad, body.skip(epad.len() as int) + (close + "]"@));
        lemma_piece_index(s, a + 1 + epad.len(), body.skip(epad.len() as int) + (close + "]"@), 0);
        assert(s[a + 1 + epad.len()] == '{');
        lemma_skip_ws_piece(s, a + 1, epad);
        assert(body + (close + "]"@) =~= body + close + "]"@);
        lemma_cmd_items_emit(s, a + 1, items, Seq::empty());
        assert(Seq::empty() + items =~= items);
    }
}

#[verifier::rlimit(100)]
proof fn lemma_run_array_of_emit(s: Seq<char>, i: int, pad: Seq<char>, items: Seq<RunModel>)
    requires
        piece_at(s, i, pad + emit_run_list(items)),
        all_ws(pad),
    ensures
        parse_run_array(s, i) == Some((items, i + pad.len() + emit_run_list(items).len())),
{
    reveal_strlit("[]");
    reveal_strlit("[");
    reveal_strlit("]");
    reveal_strlit("\"");
    reveal_strlit("{");
    lemma_pads_ws();
    let lst = emit_run_list(items);
    if items.len() == 0 {
        assert(pad + lst =~= (pad + seq!['[']) + seq![']']);
        lemma_piece_split(s, i, pad + seq!['['], seq![']']);
        lemma_piece_split(s, i, pad, seq!['[']);
        lemma_token_piece(s, i, pad, '[');
        let a = i + pad.len();
        lemma_piece_index(s, a + 1, seq![']'], 0);
        lemma_skip_ws_from(s, a + 1, a + 1);
    } else {
        let body = emit_run_items(items);
        let epad = pad_elem();
        let close = pad_top();
        assert(lst == "["@ + body + close + "]"@);
        assert(pad + lst =~= (pad + seq!['[']) + (body + (close + "]"@)));
        lemma_piece_split(s, i, pad + seq!['['], body + (close + "]"@));
        lemma_piece_split(s, i, pad, seq!['[']);
        lemma_token_piece(s, i, pad, '[');
        let a = i + pad.len();
        assert(emit_run_entry(items[0])[0] == '{');
        assert forall|k: int| 0 <= k < epad.len() implies body[k] == epad[k] by {}
        assert(body[epad.len() as int] == '{');
        assert(body =~= epad + body.skip(epad.len() as int));
        assert(body + (close + "]"@) =~= epad + (body.skip(epad.len() as int) + (close + "]"@)));
        lemma_piece_split(s, a + 1, epad, body.skip(epad.len() as int) + (close + "]"@));
        lemma_piece_index(s, a + 1 + epad.len(), body.skip(epad.len() as int) + (close + "]"@), 0);
        assert(s[a + 1 + epad.len()] == '{');
        lemma_skip_ws_piece(s, a + 1, epad);
        assert(body + (close + "]"@) =~= body + close + "]"@);
        lemma_run_items_emit(s, a + 1, items, Seq::empty());
        assert(Seq::empty() + items =~= items);
    }
}

#[verifier::rlimit(100)]
proof fn lemma_doc_peel_hi(s: Seq<char>, m: DocModel)
    requires
        piece_at(s, 0, emit_doc(m)),
    ensures
        piece_at(s, 0, "{"@ + emit_member_lead("workspace"@) + emit_string(m.workspace) + ","@ + emit_member_lead("build_targets"@) + emit_str_list(m.build_targets, pad_elem(), pad_top()) + ","@ + emit_member_lead("current_build_target"@) + emit_string(m.current_build_target) + ","@),
        piece_at(s, ("{"@ + emit_member_lead("workspace"@) + emit_string(m.workspace) + ","@ + emit_member_lead("build_targets"@) + emit_str_list(m.build_targets, pad_elem(), pad_top()) + ","@ + emit_member_lead("current_build_target"@) + emit_string(m.current_build_target) + ","@).len() as int, emit_member_lead("builds"@)),
        piece_at(s, ("{"@ + emit_member_lead("workspace"@) + emit_string(m.workspace) + ","@ + emit_member_lead("build_targets"@) + emit_str_list(m.build_targets, pad_elem(), pad_top()) + ","@ + emit_member_lead("current_build_target"@) + emit_string(m.current_build_target) + ","@ + emit_member_lead("builds"@)).len() as int, emit_cmd_list(m.builds)),
        piece_at(s, ("{"@ + emit_member_lead("workspace"@) + emit_string(m.workspace) + ","@ + emit_member_lead("build_targets"@) + emit_str_list(m.build_targets, pad_elem(), pad_top()) + ","@ + emit_member_lead("current_build_target"@) + emit_string(m.current_build_target) + ","@ + emit_member_lead("builds"@) + emit_cmd_list(m.builds)).len() as int, ","@),
        piece_at(s, ("{"@ + emit_member_lead("workspace"@) + emit_string(m.workspace) + ","@ + emit_member_lead("build_targets"@) + emit_str_list(m.build_targets, pad_elem(), pad_top()) + ","@ + emit_member_lead("current_build_target"@) + emit_string(m.current_build_target) + ","@ + emit_member_lead("builds"@) + emit_cmd_list(m.builds) + ","@).len() as int, emit_member_lead("runs"@)),
        piece_at(s, ("{"@ + emit_member_lead("workspace"@) + emit_string(m.workspace) + ","@ + emit_member_lead("build_targets"@) + emit_str_list(m.build_targets, pad_elem(), pad_top()) + ","@ + emit_member_lead("current_build_target"@) + emit_string(m.current_build_target) + ","@ + emit_member_lead("builds"@) + emit_cmd_list(m.builds) + ","@ + emit_member_lead("runs"@)).len() as int, emit_run_list(m.runs)),
        piece_at(s, ("{"@ + emit_member_lead("workspace"@) + emit_string(m.workspace) + ","@ + emit_member_lead("build_targets"@) + emit_str_list(m.build_targets, pad_elem(), pad_top()) + ","@ + emit_member_lead("current_build_target"@) + emit_string(m.current_build_target) + ","@ + emit_member_lead("builds"@) + emit_cmd_list(m.builds) + ","@ + emit_member_lead("runs"@) + emit_run_list(m.runs)).len() as int, ","@),
        piece_at(s, ("{"@ + emit_member_lead("workspace"@) + emit_string(m.workspace) + ","@ + emit_member_lead("build_targets"@) + emit_str_list(m.build_targets, pad_elem(), pad_top()) + ","@ + emit_member_lead("current_build_target"@) + emit_string(m.current_build_target) + ","@ + emit_member_lead("builds"@) + emit_cmd_list(m.builds) + ","@ + emit_member_lead("runs"@) + emit_run_list(m.runs) + ","@).len() as int, emit_member_lead("configurations"@)),
        piece_at(s, ("{"@ + emit_member_lead("workspace"@) + emit_string(m.workspace) + ","@ + emit_member_lead("build_targets"@) + emit_str_list(m.build_targets, pad_elem(), pad_top()) + ","@ + emit_member_lead("current_build_target"@) + emit_string(m.current_build_target) + ","@ + emit_member_lead("builds"@) + emit_cmd_list(m.builds) + ","@ + emit_member_lead("runs"@) + emit_run_list(m.runs) + ","@ + emit_member_lead("configurations"@)).len() as int, emit_cmd_list(m.configurations)),
        piece_at(s, ("{"@ + emit_member_lead("workspace"@) + emit_string(m.workspace) + ","@ + emit_member_lead("build_targets"@) + emit_str_list(m.build_targets, pad_elem(), pad_top()) + ","@ + emit_member_lead("current_build_target"@) + emit_string(m.current_build_target) + ","@ + emit_member_lead("builds"@) + emit_cmd_list(m.builds) + ","@ + emit_member_lead("runs"@) + emit_run_list(m.runs) + ","@ + emit_member_lead("configurations"@) + emit_cmd_list(m.configurations)).len() as int, "\n}"@),
{
    let a1 = "{"@;
    let a2 = emit_member_lead("workspace"@);
    let a3 = emit_string(m.workspace);
    let a4 = ","@;
    let a5 = emit_member_lead("build_targets"@);
    let a6 = emit_str_list(m.build_targets, pad_elem(), pad_top());
    let a7 = ","@;
    let a8 = emit_member_lead("current_build_target"@);
    let a9 = emit_string(m.current_build_target);
    let a10 = ","@;
    let a11 = emit_member_lead("builds"@);
    let a12 = emit_cmd_list(m.builds);
    let a13 = ","@;
    let a14 = emit_member_lead("runs"@);
    let a15 = emit_run_list(m.runs);
    let a16 = ","@;
    let a17 = emit_member_lead("configurations"@);
    let a18 = emit_cmd_list(m.configurations);
    let a19 = "\n}"@;
    let p1 = a1;
    let p2 = p1 + a2;
    let p3 = p2 + a3;
    let p4 = p3 + a4;
    let p5 = p4 + a5;
    let p6 = p5 + a6;
    let p7 = p6 + a7;
    let p8 = p7 + a8;
    let p9 = p8 + a9;
    let p10 = p9 + a10;
    let p11 = p10 + a11;
    let p12 = p11 + a12;
    let p13 = p12 + a13;
    let p14 = p13 + a14;
    let p15 = p14 + a15;
    let p16 = p15 + a16;
    let p17 = p16 + a17;
    let p18 = p17 + a18;
    let p19 = p18 + a19;
    assert(piece_at(s, 0, p19));
    lemma_piece_split(s, 0, p18, a19);
    lemma_piece_split(s, 0, p17, a18);
    lemma_piece_split(s, 0, p16, a17);
    lemma_piece_split(s, 0, p15, a16);
    lemma_piece_split(s, 0, p14, a15);
    lemma_piece_split(s, 0, p13, a14);
    lemma_piece_split(s, 0, p12, a13);
    lemma_piece_split(s, 0, p11, a12);
    lemma_piece_split(s, 0, p10, a11);
}

#[verifier::rlimit(100)]
proof fn lemma_doc_peel_lo(s: Seq<char>, m: DocModel)
    requires
        piece_at(s, 0, "{"@ + emit_member_lead("workspace"@) + emit_string(m.workspace) + ","@ + emit_member_lead("build_targets"@) + emit_str_list(m.build_targets, pad_elem(), pad_top()) + ","@ + emit_member_lead("current_build_target"@) + emit_string(m.current_build_target) + ","@),
    ensures
        piece_at(s, 0, "{"@),
        piece_at(s, ("{"@).len() as int, emit_member_lead("workspace"@)),
        piece_at(s, ("{"@ + emit_member_lead("workspace"@)).len() as int, emit_string(m.workspace)),
        piece_at(s, ("{"@ + emit_member_lead("workspace"@) + emit_string(m.workspace)).len() as int, ","@),
        piece_at(s, ("{"@ + emit_member_lead("workspace"@) + emit_string(m.workspace) + ","@).len() as int, emit_member_lead("build_targets"@)),
        piece_at(s, ("{"@ + emit_member_lead("workspace"@) + emit_string(m.workspace) + ","@ + emit_member_lead("build_targets"@)).len() as int, emit_str_list(m.build_targets, pad_elem(), pad_top())),
        piece_at(s, ("{"@ + emit_member_lead("workspace"@) + emit_string(m.workspace) + ","@ + emit_member_lead("build_targets"@) + emit_str_list(m.build_targets, pad_elem(), pad_top())).len() as int, ","@),
        piece_at(s, ("{"@ + emit_member_lead("workspace"@) + emit_string(m.workspace) + ","@ + emit_member_lead("build_targets"@) + emit_str_list(m.build_targets, pad_elem(), pad_top()) + ","@).len() as int, emit_member_lead("current_build_target"@)),
        piece_at(s, ("{"@ + emit_member_lead("workspace"@) + emit_string(m.workspace) + ","@ + emit_member_lead("build_targets"@) + emit_str_list(m.build_targets, pad_elem(), pad_top()) + ","@ + emit_member_lead("current_build_target"@)).len() as int, emit_string(m.current_build_target)),
        piece_at(s, ("{"@ + emit_member_lead("workspace"@) + emit_string(m.workspace) + ","@ + emit_member_lead("build_targets"@) + emit_str_list(m.build_targets, pad_elem(), pad_top()) + ","@ + emit_member_lead("current_build_target"@) + emit_string(m.current_build_target)).len() as int, ","@),
{
    let a1 = "{"@;
    let a2 = emit_member_lead("workspace"@);
    let a3 = emit_string(m.workspace);
    let a4 = ","@;
    let a5 = emit_member_lead("build_targets"@);
    let a6 = emit_str_list(m.build_targets, pad_elem(), pad_top());
    let a7 = ","@;
    let a8 = emit_member_lead("current_build_target"@);
    let a9 = emit_string(m.current_build_target);
    let a10 = ","@;
    let p1 = a1;
    let p2 = p1 + a2;
    let p3 = p2 + a3;
    let p4 = p3 + a4;
    let p5 = p4 + a5;
    let p6 = p5 + a6;
    let p7 = p6 + a7;
    let p8 = p7 + a8;
    let p9 = p8 + a9;
    let p10 = p9 + a10;
    assert(piece_at(s, 0, p10));
    lemma_piece_split(s, 0, p9, a10);
    lemma_piece_split(s, 0, p8, a9);
    lemma_piece_split(s, 0, p7, a8);
    lemma_piece_split(s, 0, p6, a7);
    lemma_piece_split(s, 0, p5, a6);
    lemma_piece_split(s, 0, p4, a5);
    lemma_piece_split(s, 0, p3, a4);
    lemma_piece_split(s, 0, p2, a3);
    lemma_piece_split(s, 0, p1, a2);
}

#[verifier::rlimit(100)]
proof fn lemma_doc_part1(s: Seq<char>, m: DocModel)
    requires
        piece_at(s, ("{"@).len() as int, emit_member_lead("workspace"@)),
        piece_at(s, ("{"@ + emit_member_lead("workspace"@)).len() as int, emit_string(m.workspace)),
        piece_at(s, ("{"@ + emit_member_lead("workspace"@) + emit_string(m.workspace)).len() as int, ","@),
    ensures
        parse_doc_members(s, ("{"@).len() as int, DocParts { workspace: None, build_targets: None, current_build_target: None, builds: None, runs: None, configurations: None }) == parse_doc_members(
            s,
            ("{"@ + emit_member_lead("workspace"@) + emit_string(m.workspace) + ","@).len() as int,
            DocParts { workspace: Some(m.workspace), build_targets: None, current_build_target: None, builds: None, runs: None, configurations: None },
        ),
{
    reveal_strlit(",");
    lemma_pads_ws();
    lemma_piece_join(s, ("{"@).len() as int, emit_member_lead("workspace"@), emit_string(m.workspace));
    assert(","@ =~= seq![',']);
    lemma_empty_piece(s, ("{"@ + emit_member_lead("workspace"@) + emit_string(m.workspace)).len() as int);
    lemma_doc_step_workspace(s, ("{"@).len() as int, pad_top(), DocParts { workspace: None, build_targets: None, current_build_target: None, builds: None, runs: None, configurations: None }, m.workspace, Seq::empty(), ',');
}

#[verifier::rlimit(100)]
proof fn lemma_doc_part2(s: Seq<char>, m: DocModel)
    requires
        piece_at(s, ("{"@ + emit_member_lead("workspace"@) + emit_string(m.workspace) + ","@).len() as int, emit_member_lead("build_targets"@)),
        piece_at(s, ("{"@ + emit_member_lead("workspace"@) + emit_string(m.workspace) + ","@ + emit_member_lead("build_targets"@)).len() as int, emit_str_list(m.build_targets, pad_elem(), pad_top())),
        piece_at(s, ("{"@ + emit_member_lead("workspace"@) + emit_string(m.workspace) + ","@ + emit_member_lead("build_targets"@) + emit_str_list(m.build_targets, pad_elem(), pad_top())).len() as int, ","@),
    ensures
        parse_doc_members(s, ("{"@ + emit_member_lead("workspace"@) + emit_string(m.workspace) + ","@).len() as int, DocParts { workspace: Some(m.workspace), build_targets: None, current_build_target: None, builds: None, runs: None, configurations: None }) == parse_doc_members(
            s,
            ("{"@ + emit_member_lead("workspace"@) + emit_string(m.workspace) + ","@ + emit_member_lead("build_targets"@) + emit_str_list(m.build_targets, pad_elem(), pad_top()) + ","@).len() as int,
            DocParts { workspace: Some(m.workspace), build_targets: Some(m.build_targets), current_build_target: None, builds: None, runs: None, configurations: None },
        ),
{
    reveal_strlit(",");
    lemma_pads_ws();
    lemma_piece_join(s, ("{"@ + emit_member_lead("workspace"@) + emit_string(m.workspace) + ","@).len() as int, emit_member_lead("build_targets"@), emit_str_list(m.build_targets, pad_elem(), pad_top()));
    assert(","@ =~= seq![',']);
    lemma_empty_piece(s, ("{"@ + emit_member_lead("workspace"@) + emit_string(m.workspace) + ","@ + emit_member_lead("build_targets"@) + emit_str_list(m.build_targets, pad_elem(), pad_top())).len() as int);
    lemma_doc_step_build_targets(s, ("{"@ + emit_member_lead("workspace"@) + emit_string(m.workspace) + ","@).len() as int, pad_top(), DocParts { workspace: Some(m.workspace), build_targets: None, current_build_target: None, builds: None, runs: None, configurations: None }, m.build_targets, Seq::empty(), ',');
}

#[verifier::rlimit(100)]
proof fn lemma_doc_part3(s: Seq<char>, m: DocModel)
    requires
        piece_at(s, ("{"@ + emit_member_lead("workspace"@) + emit_string(m.workspace) + ","@ + emit_member_lead("build_targets"@) + emit_str_list(m.build_targets, pad_elem(), pad_top()) + ","@).len() as int, emit_member_lead("current_build_target"@)),
        piece_at(s, ("{"@ + emit_member_lead("workspace"@) + emit_string(m.workspace) + ","@ + emit_member_lead("build_targets"@) + emit_str_list(m.build_targets, pad_elem(), pad_top()) + ","@ + emit_member_lead("current_build_target"@)).len() as int, emit_string(m.current_build_target)),
        piece_at(s, ("{"@ + emit_member_lead("workspace"@) + emit_string(m.workspace) + ","@ + emit_member_lead("build_targets"@) + emit_str_list(m.build_targets, pad_elem(), pad_top()) + ","@ + emit_member_lead("current_build_target"@) + emit_string(m.current_build_target)).len() as int, ","@),
    ensures
        parse_doc_members(s, ("{"@ + emit_member_lead("workspace"@) + emit_string(m.workspace) + ","@ + emit_member_lead("build_targets"@) + emit_str_list(m.build_targets, pad_elem(), pad_top()) + ","@).len() as int, DocParts { workspace: Some(m.workspace), build_targets: Some(m.build_targets), current_build_target: None, builds: None, runs: None, configurations: None }) == parse_doc_members(
            s,
            ("{"@ + emit_member_lead("workspace"@) + emit_string(m.workspace) + ","@ + emit_member_lead("build_targets"@) + emit_str_list(m.build_targets, pad_elem(), pad_top()) + ","@ + emit_member_lead("current_build_target"@) + emit_string(m.current_build_target) + ","@).len() as int,
            DocParts { workspace: Some(m.workspace), build_targets: Some(m.build_targets), current_build_target: Some(m.current_build_target), builds: None, runs: None, configurations: None },
        ),
{
    reveal_strlit(",");
    lemma_pads_ws();
    lemma_piece_join(s, ("{"@ + emit_member_lead("workspace"@) + emit_string(m.workspace) + ","@ + emit_member_lead("build_targets"@) + emit_str_list(m.build_targets, pad_elem(), pad_top()) + ","@).len() as int, emit_member_lead("current_build_target"@), emit_string(m.current_build_target));
    assert(","@ =~= seq![',']);
    lemma_empty_piece(s, ("{"@ + emit_member_lead("workspace"@) + emit_string(m.workspace) + ","@ + emit_member_lead("build_targets"@) + emit_str_list(m.build_targets, pad_elem(), pad_top()) + ","@ + emit_member_lead("current_build_target"@) + emit_string(m.current_build_target)).len() as int);
    lemma_doc_step_current(s, ("{"@ + emit_member_lead("workspace"@) + emit_string(m.workspace) + ","@ + emit_member_lead("build_targets"@) + emit_str_list(m.build_targets, pad_elem(), pad_top()) + ","@).len() as int, pad_top(), DocParts { workspace: Some(m.workspace), build_targets: Some(m.build_targets), current_build_target: None, builds: None, runs: None, configurations: None }, m.current_build_target, Seq::empty(), ',');
}

#[verifier::rlimit(100)]
proof fn lemma_doc_part4(s: Seq<char>, m: DocModel)
    requires
        piece_at(s, ("{"@ + emit_member_lead("workspace"@) + emit_string(m.workspace) + ","@ + emit_member_lead("build_targets"@) + emit_str_list(m.build_targets, pad_elem(), pad_top()) + ","@ + emit_member_lead("current_build_target"@) + emit_string(m.current_build_target) + ","@).len() as int, emit_member_lead("builds"@)),
        piece_at(s, ("{"@ + emit_member_lead("workspace"@) + emit_string(m.workspace) + ","@ + emit_member_lead("build_targets"@) + emit_str_list(m.build_targets, pad_elem(), pad_top()) + ","@ + emit_member_lead("current_build_target"@) + emit_string(m.current_build_target) + ","@ + emit_member_lead("builds"@)).len() as int, emit_cmd_list(m.builds)),
        piece_at(s, ("{"@ + emit_member_lead("workspace"@) + emit_string(m.workspace) + ","@ + emit_member_lead("build_targets"@) + emit_str_list(m.build_targets, pad_elem(), pad_top()) + ","@ + emit_member_lead("current_build_target"@) + emit_string(m.current_build_target) + ","@ + emit_member_lead("builds"@) + emit_cmd_list(m.builds)).len() as int, ","@),
    ensures
        parse_doc_members(s, ("{"@ + emit_member_lead("workspace"@) + emit_string(m.workspace) + ","@ + emit_member_lead("build_targets"@) + emit_str_list(m.build_targets, pad_elem(), pad_top()) + ","@ + emit_member_lead("current_build_target"@) + emit_string(m.current_build_target) + ","@).len() as int, DocParts { workspace: Some(m.workspace), build_targets: Some(m.build_targets), current_build_target: Some(m.current_build_target), builds: None, runs: None, configurations: None }) == parse_doc_members(
            s,
            ("{"@ + emit_member_lead("workspace"@) + emit_string(m.workspace) + ","@ + emit_member_lead("build_targets"@) + emit_str_list(m.build_targets, pad_elem(), pad_top()) + ","@ + emit_member_lead("current_build_target"@) + emit_string(m.current_build_target) + ","@ + emit_member_lead("builds"@) + emit_cmd_list(m.builds) + ","@).len() as int,
            DocParts { workspace: Some(m.workspace), build_targets: Some(m.build_targets), current_build_target: Some(m.current_build_target), builds: Some(m.builds), runs: None, configurations: None },
        ),
{
    reveal_strlit(",");
    lemma_pads_ws();
    lemma_piece_join(s, ("{"@ + emit_member_lead("workspace"@) + emit_string(m.workspace) + ","@ + emit_member_lead("build_targets"@) + emit_str_list(m.build_targets, pad_elem(), pad_top()) + ","@ + emit_member_lead("current_build_target"@) + emit_string(m.current_build_target) + ","@).len() as int, emit_member_lead("builds"@), emit_cmd_list(m.builds));
    assert(","@ =~= seq![',']);
    lemma_empty_piece(s, ("{"@ + emit_member_lead("workspace"@) + emit_string(m.workspace) + ","@ + emit_member_lead("build_targets"@) + emit_str_list(m.build_targets, pad_elem(), pad_top()) + ","@ + emit_member_lead("current_build_target"@) + emit_string(m.current_build_target) + ","@ + emit_member_lead("builds"@) + emit_cmd_list(m.builds)).len() as int);
    lemma_doc_step_builds(s, ("{"@ + emit_member_lead("workspace"@) + emit_string(m.workspace) + ","@ + emit_member_lead("build_targets"@) + emit_str_list(m.build_targets, pad_elem(), pad_top()) + ","@ + emit_member_lead("current_build_target"@) + emit_string(m.current_build_target) + ","@).len() as int, pad_top(), DocParts { workspace: Some(m.workspace), build_targets: Some(m.build_targets), current_build_target: Some(m.current_build_target), builds: None, runs: None, configurations: None }, m.builds, Seq::empty(), ',');
}

#[verifier::rlimit(100)]
proof fn lemma_doc_part5(s: Seq<char>, m: DocModel)
    requires
        piece_at(s, ("{"@ + emit_member_lead("workspace"@) + emit_string(m.workspace) + ","@ + emit_member_lead("build_targets"@) + emit_str_list(m.build_targets, pad_elem(), pad_top()) + ","@ + emit_member_lead("current_build_target"@) + emit_string(m.current_build_target) + ","@ + emit_member_lead("builds"@) + emit_cmd_list(m.builds) + ","@).len() as int, emit_member_lead("runs"@)),
        piece_at(s, ("{"@ + emit_member_lead("workspace"@) + emit_string(m.workspace) + ","@ + emit_member_lead("build_targets"@) + emit_str_list(m.build_targets, pad_elem(), pad_top()) + ","@ + emit_member_lead("current_build_target"@) + emit_string(m.current_build_target) + ","@ + emit_member_lead("builds"@) + emit_cmd_list(m.builds) + ","@ + emit_member_lead("runs"@)).len() as int, emit_run_list(m.runs)),
        piece_at(s, ("{"@ + emit_member_lead("workspace"@) + emit_string(m.workspace) + ","@ + emit_member_lead("build_targets"@) + emit_str_list(m.build_targets, pad_elem(), pad_top()) + ","@ + emit_member_lead("current_build_target"@) + emit_string(m.current_build_target) + ","@ + emit_member_lead("builds"@) + emit_cmd_list(m.builds) + ","@ + emit_member_lead("runs"@) + emit_run_list(m.runs)).len() as int, ","@),
    ensures
        parse_doc_members(s, ("{"@ + emit_member_lead("workspace"@) + emit_string(m.workspace) + ","@ + emit_member_lead("build_targets"@) + emit_str_list(m.build_targets, pad_elem(), pad_top()) + ","@ + emit_member_lead("current_build_target"@) + emit_string(m.current_build_target) + ","@ + emit_member_lead("builds"@) + emit_cmd_list(m.builds) + ","@).len() as int, DocParts { workspace: Some(m.workspace), build_targets: Some(m.build_targets), current_build_target: Some(m.current_build_target), builds: Some(m.builds), runs: None, configurations: None }) == parse_doc_members(
            s,
            ("{"@ + emit_member_lead("workspace"@) + emit_string(m.workspace) + ","@ + emit_member_lead("build_targets"@) + emit_str_list(m.build_targets, pad_elem(), pad_top()) + ","@ + emit_member_lead("current_build_target"@) + emit_string(m.current_build_target) + ","@ + emit_member_lead("builds"@) + emit_cmd_list(m.builds) + ","@ + emit_member_lead("runs"@) + emit_run_list(m.runs) + ","@).len() as int,
            DocParts { workspace: Some(m.workspace), build_targets: Some(m.build_targets), current_build_target: Some(m.current_build_target), builds: Some(m.builds), runs: Some(m.runs), configurations: None },
        ),
{
    reveal_strlit(",");
    lemma_pads_ws();
    lemma_piece_join(s, ("{"@ + emit_member_lead("workspace"@) + emit_string(m.workspace) + ","@ + emit_member_lead("build_targets"@) + emit_str_list(m.build_targets, pad_elem(), pad_top()) + ","@ + emit_member_lead("current_build_target"@) + emit_string(m.current_build_target) + ","@ + emit_member_lead("builds"@) + emit_cmd_list(m.builds) + ","@).len() as int, emit_member_lead("runs"@), emit_run_list(m.runs));
    assert(","@ =~= seq![',']);
    lemma_empty_piece(s, ("{"@ + emit_member_lead("workspace"@) + emit_string(m.workspace) + ","@ + emit_member_lead("build_targets"@) + emit_str_list(m.build_targets, pad_elem(), pad_top()) + ","@ + emit_member_lead("current_build_target"@) + emit_string(m.current_build_target) + ","@ + emit_member_lead("builds"@) + emit_cmd_list(m.builds) + ","@ + emit_member_lead("runs"@) + emit_run_list(m.runs)).len() as int);
    lemma_doc_step_runs(s, ("{"@ + emit_member_lead("workspace"@) + emit_string(m.workspace) + ","@ + emit_member_lead("build_targets"@) + emit_str_list(m.build_targets, pad_elem(), pad_top()) + ","@ + emit_member_lead("current_build_target"@) + emit_string(m.current_build_target) + ","@ + emit_member_lead("builds"@) + emit_cmd_list(m.builds) + ","@).len() as int, pad_top(), DocParts { workspace: Some(m.workspace), build_targets: Some(m.build_targets), current_build_target: Some(m.current_build_target), builds: Some(m.builds), runs: None, configurations: None }, m.runs, Seq::empty(), ',');
}

#[verifier::rlimit(100)]
proof fn lemma_doc_part6(s: Seq<char>, m: DocModel)
    requires
        piece_at(s, ("{"@ + emit_member_lead("workspace"@) + emit_string(m.workspace) + ","@ + emit_member_lead("build_targets"@) + emit_str_list(m.build_targets, pad_elem(), pad_top()) + ","@ + emit_member_lead("current_build_target"@) + emit_string(m.current_build_target) + ","@ + emit_member_lead("builds"@) + emit_cmd_list(m.builds) + ","@ + emit_member_lead("runs"@) + emit_run_list(m.runs) + ","@).len() as int, emit_member_lead("configurations"@)),
        piece_at(s, ("{"@ + emit_member_lead("workspace"@) + emit_string(m.workspace) + ","@ + emit_member_lead("build_targets"@) + emit_str_list(m.build_targets, pad_elem(), pad_top()) + ","@ + emit_member_lead("current_build_target"@) + emit_string(m.current_build_target) + ","@ + emit_member_lead("builds"@) + emit_cmd_list(m.builds) + ","@ + emit_member_lead("runs"@) + emit_run_list(m.runs) + ","@ + emit_member_lead("configurations"@)).len() as int, emit_cmd_list(m.configurations)),
        piece_at(s, ("{"@ + emit_member_lead("workspace"@) + emit_string(m.workspace) + ","@ + emit_member_lead("build_targets"@) + emit_str_list(m.build_targets, pad_elem(), pad_top()) + ","@ + emit_member_lead("current_build_target"@) + emit_string(m.current_build_target) + ","@ + emit_member_lead("builds"@) + emit_cmd_list(m.builds) + ","@ + emit_member_lead("runs"@) + emit_run_list(m.runs) + ","@ + emit_member_lead("configurations"@) + emit_cmd_list(m.configurations)).len() as int, "\n}"@),
    ensures
        parse_doc_members(s, ("{"@ + emit_member_lead("workspace"@) + emit_string(m.workspace) + ","@ + emit_member_lead("build_targets"@) + emit_str_list(m.build_targets, pad_elem(), pad_top()) + ","@ + emit_member_lead("current_build_target"@) + emit_string(m.current_build_target) + ","@ + emit_member_lead("builds"@) + emit_cmd_list(m.builds) + ","@ + emit_member_lead("runs"@) + emit_run_list(m.runs) + ","@).len() as int, DocParts { workspace: Some(m.workspace), build_targets: Some(m.build_targets), current_build_target: Some(m.current_build_target), builds: Some(m.builds), runs: Some(m.runs), configurations: None }) == Some(
            (DocParts { workspace: Some(m.workspace), build_targets: Some(m.build_targets), current_build_target: Some(m.current_build_target), builds: Some(m.builds), runs: Some(m.runs), configurations: Some(m.configurations) }, ("{"@ + emit_member_lead("workspace"@) + emit_string(m.workspace) + ","@ + emit_member_lead("build_targets"@) + emit_str_list(m.build_targets, pad_elem(), pad_top()) + ","@ + emit_member_lead("current_build_target"@) + emit_string(m.current_build_target) + ","@ + emit_member_lead("builds"@) + emit_cmd_list(m.builds) + ","@ + emit_member_lead("runs"@) + emit_run_list(m.runs) + ","@ + emit_member_lead("configurations"@) + emit_cmd_list(m.configurations) + "\n}"@).len() as int),
        ),
{
    reveal_strlit(",");
    lemma_pads_ws();
    lemma_piece_join(s, ("{"@ + emit_member_lead("workspace"@) + emit_string(m.workspace) + ","@ + emit_member_lead("build_targets"@) + emit_str_list(m.build_targets, pad_elem(), pad_top()) + ","@ + emit_member_lead("current_build_target"@) + emit_string(m.current_build_target) + ","@ + emit_member_lead("builds"@) + emit_cmd_list(m.builds) + ","@ + emit_member_lead("runs"@) + emit_run_list(m.runs) + ","@).len() as int, emit_member_lead("configurations"@), emit_cmd_list(m.configurations));
    reveal_strlit("\n}");
    assert("\n}"@ =~= seq!['\n'] + seq!['}']);
    lemma_piece_split(s, ("{"@ + emit_member_lead("workspace"@) + emit_string(m.workspace) + ","@ + emit_member_lead("build_targets"@) + emit_str_list(m.build_targets, pad_elem(), pad_top()) + ","@ + emit_member_lead("current_build_target"@) + emit_string(m.current_build_target) + ","@ + emit_member_lead("builds"@) + emit_cmd_list(m.builds) + ","@ + emit_member_lead("runs"@) + emit_run_list(m.runs) + ","@ + emit_member_lead("configurations"@) + emit_cmd_list(m.configurations)).len() as int, seq!['\n'], seq!['}']);
    assert(all_ws(seq!['\n']));
    lemma_doc_step_configurations(s, ("{"@ + emit_member_lead("workspace"@) + emit_string(m.workspace) + ","@ + emit_member_lead("build_targets"@) + emit_str_list(m.build_targets, pad_elem(), pad_top()) + ","@ + emit_member_lead("current_build_target"@) + emit_string(m.current_build_target) + ","@ + emit_member_lead("builds"@) + emit_cmd_list(m.builds) + ","@ + emit_member_lead("runs"@) + emit_run_list(m.runs) + ","@).len() as int, pad_top(), DocParts { workspace: Some(m.workspace), build_targets: Some(m.build_targets), current_build_target: Some(m.current_build_target), builds: Some(m.builds), runs: Some(m.runs), configurations: None }, m.configurations, seq!['\n'], '}');
}

proof fn lemma_doc_finish(s: Seq<char>, m: DocModel, end: int)
    requires
        parse_token(s, 0, '{') == Some(1int),
        parse_doc_members(s, 1, doc_parts_empty()) == Some((DocParts { workspace: Some(m.workspace), build_targets: Some(m.build_targets), current_build_target: Some(m.current_build_target), builds: Some(m.builds), runs: Some(m.runs), configurations: Some(m.configurations) }, end)),
        end == s.len(),
    ensures
        load_spec(s) == Some(m),
{
    lemma_skip_ws_from(s, s.len() as int, s.len() as int);
    assert(DocModel {
        workspace: m.workspace,
        build_targets: m.build_targets,
        current_build_target: m.current_build_target,
        builds: m.builds,
        runs: m.runs,
        configurations: m.configurations,
    } == m);
}

/// Law: the round trip.  Whatever document `save` writes, `load` reads
/// back as the same document: `load_spec(emit_doc(m)) == Some(m)` for
/// every document model `m`.
#[verifier::rlimit(100)]
pub proof fn lemma_load_of_save(m: DocModel)
    ensures
        load_spec(emit_doc(m)) == Some(m),
{
    reveal_strlit("{");
    reveal_strlit(",");
    let s = emit_doc(m);
    assert(s.subrange(0, s.len() as int) =~= s);
    assert(piece_at(s, 0, s));
    let a1 = "{"@;
    let a2 = emit_member_lead("workspace"@);
    let a3 = emit_string(m.workspace);
    let a4 = ","@;
    let a5 = emit_member_lead("build_targets"@);
    let a6 = emit_str_list(m.build_targets, pad_elem(), pad_top());
    let a7 = ","@;
    let a8 = emit_member_lead("current_build_target"@);
    let a9 = emit_string(m.current_build_target);
    let a10 = ","@;
    let a11 = emit_member_lead("builds"@);
    let a12 = emit_cmd_list(m.builds);
    let a13 = ","@;
    let a14 = emit_member_lead("runs"@);
    let a15 = emit_run_list(m.runs);
    let a16 = ","@;
    let a17 = emit_member_lead("configurations"@);
    let a18 = emit_cmd_list(m.configurations);
    let a19 = "\n}"@;
    let p1 = a1;
    let p2 = p1 + a2;
    let p3 = p2 + a3;
    let p4 = p3 + a4;
    let p5 = p4 + a5;
    let p6 = p5 + a6;
    let p7 = p6 + a7;
    let p8 = p7 + a8;
    let p9 = p8 + a9;
    let p10 = p9 + a10;
    let p11 = p10 + a11;
    let p12 = p11 + a12;
    let p13 = p12 + a13;
    let p14 = p13 + a14;
    let p15 = p14 + a15;
    let p16 = p15 + a16;
    let p17 = p16 + a17;
    let p18 = p17 + a18;
    let p19 = p18 + a19;
    assert(s == p19);
    lemma_doc_peel_hi(s, m);
    lemma_doc_peel_lo(s, m);
    assert("{"@ =~= seq!['{']);
    lemma_empty_piece(s, 0);
    lemma_token_piece(s, 0, Seq::empty(), '{');
    lemma_doc_part1(s, m);
    lemma_doc_part2(s, m);
    lemma_doc_part3(s, m);
    lemma_doc_part4(s, m);
    lemma_doc_part5(s, m);
    lemma_doc_part6(s, m);
    lemma_doc_finish(s, m, p19.len() as int);
}

} // verus!
