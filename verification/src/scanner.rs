//! Line-by-line scanning of source text for developer notes (TODO, FIXME,
//! HACK in comments) and for risky code (eval, hard-coded secrets, SQL built
//! by interpolation); and the pairing of source files with their tests.
use vstd::prelude::*;

use crate::text::{
    chars_of, contains, contains_sub, ends_with, find, find_char, find_spec, has_prefix,
    has_suffix, is_upper, last_piece, last_piece_chars, lines, lines_str, lowercase, replace_all,
    replace_str, slice_of, starts_with, string_of, strs, take_at_most, take_at_most_chars, to_lower,
    trim, trim_chars, views,
};

verus! {

#[derive(Clone)]
pub struct DevNote {
    pub file: String,
    pub line: u32,
    pub kind: String,
    pub text: String,
}

#[derive(Clone)]
pub struct SecurityIssue {
    pub file: String,
    pub line: u32,
    pub kind: String,
    pub detail: String,
}

pub struct ScanResults {
    pub todos: Vec<DevNote>,
    pub fixmes: Vec<DevNote>,
    pub hacks: Vec<DevNote>,
    pub security: Vec<SecurityIssue>,
}

impl ScanResults {
    /// No findings.
    pub fn new() -> (r: ScanResults)
        ensures
            r.todos@.len() == 0,
            r.fixmes@.len() == 0,
            r.hacks@.len() == 0,
            r.security@.len() == 0,
    {
        ScanResults { todos: Vec::new(), fixmes: Vec::new(), hacks: Vec::new(), security: Vec::new() }
    }
}

/// A finding as plain values: file, line, kind, and text or detail.
pub type Finding = (Seq<char>, u32, Seq<char>, Seq<char>);

pub open spec fn note_view(n: DevNote) -> Finding {
    (n.file@, n.line, n.kind@, n.text@)
}

pub open spec fn issue_view(s: SecurityIssue) -> Finding {
    (s.file@, s.line, s.kind@, s.detail@)
}

pub open spec fn note_views(v: Seq<DevNote>) -> Seq<Finding> {
    v.map_values(|n: DevNote| note_view(n))
}

pub open spec fn issue_views(v: Seq<SecurityIssue>) -> Seq<Finding> {
    v.map_values(|s: SecurityIssue| issue_view(s))
}

// ---------------------------------------------------------------------------
// Developer notes
// ---------------------------------------------------------------------------

/// The text before index `pos` of `line` opens a comment.
pub open spec fn in_comment(line: Seq<char>, pos: int) -> bool {
    let before = line.take(pos);
    contains_sub(before, "//"@) || contains_sub(before, "/*"@) || contains_sub(before, "* "@)
        || has_prefix(before, "#"@) || has_prefix(before, "*"@)
}

pub open spec fn is_note_sep(c: char) -> bool {
    c == ':' || c == ' ' || c == '-'
}

/// `s` without its leading `':'`, `' '` and `'-'`.
pub open spec fn skip_note_seps(s: Seq<char>) -> Seq<char>
    decreases s.len(),
{
    if s.len() > 0 && is_note_sep(s[0]) {
        skip_note_seps(s.drop_first())
    } else {
        s
    }
}

/// The text of a note that starts at index `start` of `line`: separators
/// skipped, at most 80 characters, trimmed.
pub open spec fn note_text(line: Seq<char>, start: int) -> Seq<char> {
    if start >= line.len() {
        Seq::<char>::empty()
    } else {
        trim(take_at_most(skip_note_seps(line.skip(start)), 80))
    }
}

/// The note a trimmed line holds for `marker` (of length `mlen`): the first
/// occurrence of the marker, when a comment opens before it.
pub open spec fn marker_note(t: Seq<char>, marker: Seq<char>, mlen: int) -> Option<Seq<char>> {
    match find_spec(t, marker) {
        Some(pos) => if in_comment(t, pos) {
            Some(note_text(t, pos + mlen))
        } else {
            None
        },
        None => None,
    }
}

/// The notes for `marker` in the lines `ls`, numbered from 1.
pub open spec fn notes_in(
    rel: Seq<char>,
    ls: Seq<Seq<char>>,
    marker: Seq<char>,
    mlen: int,
    kind: Seq<char>,
) -> Seq<Finding>
    decreases ls.len(),
{
    if ls.len() == 0 {
        Seq::empty()
    } else {
        let rest = notes_in(rel, ls.drop_last(), marker, mlen, kind);
        match marker_note(trim(ls.last()), marker, mlen) {
            Some(text) => rest.push((rel, ls.len() as u32, kind, text)),
            None => rest,
        }
    }
}

/// Whether a comment opens before index `pos` of `line`.
pub fn is_comment_context(line: &[char], pos: usize) -> (r: bool)
    requires
        pos <= line@.len(),
    ensures
        r == in_comment(line@, pos as int),
{
    let before = slice_of(line, 0, pos);
    assert(before@ =~= line@.take(pos as int));
    contains(before.as_slice(), "//") || contains(before.as_slice(), "/*") || contains(
        before.as_slice(),
        "* ",
    ) || starts_with(before.as_slice(), "#") || starts_with(before.as_slice(), "*")
}

/// The text of a note starting at index `start` of `line`.
pub fn extract_note_text(line: &[char], start: usize) -> (r: String)
    ensures
        r@ == note_text(line@, start as int),
{
    if start >= line.len() {
        return String::new();
    }
    let n = line.len();
    let mut k = start;
    assert(skip_note_seps(line@.skip(start as int)) == skip_note_seps(line@.skip(k as int)));
    while k < n && (line[k] == ':' || line[k] == ' ' || line[k] == '-')
        invariant
            start <= k <= n,
            n == line@.len(),
            skip_note_seps(line@.skip(start as int)) == skip_note_seps(line@.skip(k as int)),
        decreases n - k,
    {
        assert(line@.skip(k as int).drop_first() =~= line@.skip(k + 1));
        k += 1;
    }
    let rest = slice_of(line, k, n);
    assert(rest@ =~= line@.skip(k as int));
    assert(skip_note_seps(rest@) == rest@);
    let head = take_at_most_chars(rest.as_slice(), 80);
    let t = trim_chars(head.as_slice());
    string_of(t.as_slice())
}

fn marker_note_exec(t: &[char], marker: &str, mlen: usize) -> (r: Option<String>)
    requires
        mlen == marker@.len(),
    ensures
        match r {
            Some(s) => marker_note(t@, marker@, mlen as int) == Some(s@),
            None => marker_note(t@, marker@, mlen as int) is None,
        },
{
    let tl = t.len();
    match find(t, marker) {
        Some(pos) => {
            proof {
                crate::text::lemma_find_spec(t@, marker@);
            }
            assert(pos + mlen <= t@.len());
            if is_comment_context(t, pos) {
                Some(extract_note_text(t, pos + mlen))
            } else {
                None
            }
        },
        None => None,
    }
}

// ---------------------------------------------------------------------------
// Security findings
// ---------------------------------------------------------------------------

/// A call of `eval(` outside a comment and not marked safe.
pub open spec fn eval_issue(t: Seq<char>) -> bool {
    &&& contains_sub(t, "eval("@)
    &&& !has_prefix(t, "//"@)
    &&& !has_prefix(t, "*"@)
    &&& !(contains_sub(t, "JSON.parse"@) || contains_sub(t, "// safe"@))
}

/// A SQL statement built by interpolation or concatenation.
pub open spec fn sql_issue(t: Seq<char>) -> bool {
    &&& contains_sub(t, "SELECT"@) || contains_sub(t, "INSERT"@) || contains_sub(t, "DELETE"@)
        || contains_sub(t, "UPDATE"@)
    &&& contains_sub(t, "${"@) || contains_sub(t, "` +"@) || contains_sub(t, "' +"@)
    &&& !has_prefix(t, "//"@)
}

/// Test, spec or security-test files, where secrets are expected.
pub open spec fn is_test_file(rel: Seq<char>) -> bool {
    contains_sub(rel, ".test."@) || contains_sub(rel, ".spec."@) || contains_sub(rel, "__tests__"@)
        || contains_sub(rel, "/test/"@) || contains_sub(rel, "/tests/"@) || contains_sub(
        rel,
        ".security."@,
    ) || has_suffix(rel, "_test.go"@)
}

/// Form-field attributes of JSX or HTML.
pub open spec fn is_jsx_html_attr(lower: Seq<char>, t: Seq<char>) -> bool {
    ||| contains_sub(lower, "type=\"password\""@) || contains_sub(lower, "placeholder="@)
    ||| contains_sub(lower, "label="@) || contains_sub(lower, "aria-"@)
    ||| contains_sub(lower, "htmlfor="@) || contains_sub(lower, "classname="@)
    ||| contains_sub(lower, "name=\"password\""@) || contains_sub(lower, "name=\"token\""@)
    ||| contains_sub(lower, "id=\"password\""@) || contains_sub(lower, "id=\"token\""@)
    ||| contains_sub(lower, "id=\"confirmpassword\""@) || contains_sub(lower, "id=\"newpassword\""@)
    ||| contains_sub(lower, "id=\"currentpassword\""@)
    ||| contains_sub(lower, "autocomplete="@) || contains_sub(lower, "autocomplete=\""@)
    ||| has_prefix(t, "id="@) || has_prefix(t, "id=\""@)
}

/// A type or interface declaration.
pub open spec fn is_type_def(t: Seq<char>) -> bool {
    has_prefix(t, "type "@) || has_prefix(t, "interface "@) || has_prefix(t, "export type"@)
        || has_prefix(t, "export interface"@)
}

/// React form state.
pub open spec fn is_react_form(lower: Seq<char>) -> bool {
    contains_sub(lower, "usestate"@) || contains_sub(lower, "useform"@) || contains_sub(
        lower,
        "formdata"@,
    )
}

/// A comparison with an empty or literal string.
pub open spec fn is_empty_check(t: Seq<char>) -> bool {
    contains_sub(t, "== \"\""@) || contains_sub(t, "!= \"\""@) || contains_sub(t, "=== '"@)
        || contains_sub(t, "!== '"@) || contains_sub(t, "=== \""@) || contains_sub(t, "!== \""@)
}

/// A constant-looking value: all upper case and underscores, or a
/// well-known prefix.
pub open spec fn is_const_value(v: Seq<char>) -> bool {
    ||| forall|i: int| 0 <= i < v.len() ==> is_upper(#[trigger] v[i]) || v[i] == '_'
    ||| has_prefix(v, "PASSWORD_"@) || has_prefix(v, "X-"@)
    ||| has_prefix(v, "csrf"@) || has_prefix(v, "session"@)
}

/// The value assigned after `opener` (of length 3) up to the closing `quote`
/// is constant-looking.
pub open spec fn assigned_const(t: Seq<char>, pos: int, quote: char) -> bool {
    let after = t.skip(pos + 3);
    match find_spec(after, seq![quote]) {
        Some(end) => is_const_value(after.take(end)),
        None => false,
    }
}

/// The first assignment of a quoted value assigns a constant-looking value.
pub open spec fn is_const_enum(t: Seq<char>) -> bool {
    match find_spec(t, "= \""@) {
        Some(pos) => assigned_const(t, pos, '"'),
        None => match find_spec(t, "= '"@) {
            Some(pos) => assigned_const(t, pos, '\''),
            None => false,
        },
    }
}

/// An HTML element.
pub open spec fn is_html_element(t: Seq<char>, lower: Seq<char>) -> bool {
    has_prefix(t, seq!['<']) || contains_sub(lower, "<label"@) || contains_sub(lower, "<input"@)
        || contains_sub(lower, "<a "@) || contains_sub(lower, "<h1"@) || contains_sub(lower, "<p "@)
        || contains_sub(lower, "<selectitem"@)
}

/// A quoted value of a component property.
pub open spec fn is_prop_value(t: Seq<char>) -> bool {
    contains_sub(t, "description=\""@) || contains_sub(t, "endpoint=\""@) || contains_sub(
        t,
        "value=\""@,
    ) || contains_sub(t, "href=\""@) || contains_sub(t, "style=\""@) || contains_sub(
        t,
        "class=\""@,
    )
}

/// A validation or error message.
pub open spec fn is_error_msg(lower: Seq<char>) -> bool {
    contains_sub(lower, "is required"@) || contains_sub(lower, "do not match"@) || contains_sub(
        lower,
        "must be"@,
    ) || contains_sub(lower, "please"@) || contains_sub(lower, "confirm your"@)
}

/// A URL path or a comparison with one.
pub open spec fn is_path_pattern(lower: Seq<char>) -> bool {
    contains_sub(lower, "/api/"@) || contains_sub(lower, "path =="@) || contains_sub(
        lower,
        "path ==="@,
    )
}

/// Markup of an e-mail template.
pub open spec fn is_email_template(lower: Seq<char>) -> bool {
    contains_sub(lower, "<h1"@) || contains_sub(lower, "<p "@) || contains_sub(
        lower,
        "style=\"%s\""@,
    ) || contains_sub(lower, "class=\""@)
}

/// A word that names a credential.
pub open spec fn names_credential(lower: Seq<char>) -> bool {
    contains_sub(lower, "password"@) || contains_sub(lower, "secret"@) || contains_sub(
        lower,
        "api_key"@,
    ) || contains_sub(lower, "apikey"@) || contains_sub(lower, "token"@)
}

/// A quoted value is assigned.
pub open spec fn assigns_literal(t: Seq<char>) -> bool {
    contains_sub(t, "= \""@) || contains_sub(t, "= '"@) || contains_sub(t, "=\""@) || contains_sub(
        t,
        "='"@,
    )
}

/// Mentions that mark a value as not a real secret.
pub open spec fn harmless_mention(lower: Seq<char>) -> bool {
    contains_sub(lower, "process.env"@) || contains_sub(lower, "env."@) || contains_sub(
        lower,
        "example"@,
    ) || contains_sub(lower, "placeholder"@) || contains_sub(lower, "test"@) || contains_sub(
        lower,
        "mock"@,
    )
}

/// A trimmed line of the file `rel` that looks like a hard-coded secret.
pub open spec fn secret_issue(rel: Seq<char>, t: Seq<char>) -> bool {
    let lower = lowercase(t);
    &&& names_credential(lower)
    &&& assigns_literal(t)
    &&& !has_prefix(t, "//"@)
    &&& !has_prefix(t, "*"@)
    &&& !harmless_mention(lower)
    &&& !is_test_file(rel)
    &&& !has_suffix(rel, ".json"@)
    &&& !is_jsx_html_attr(lower, t)
    &&& !is_type_def(t)
    &&& !is_react_form(lower)
    &&& !is_empty_check(t)
    &&& !is_const_enum(t)
    &&& !is_html_element(t, lower)
    &&& !is_prop_value(t)
    &&& !is_error_msg(lower)
    &&& !is_path_pattern(lower)
    &&& !is_email_template(lower)
}

/// The findings of one trimmed line: eval, then secret, then SQL.
pub open spec fn line_issues(rel: Seq<char>, t: Seq<char>, ln: u32) -> Seq<Finding> {
    let e = if eval_issue(t) {
        seq![(rel, ln, "eval"@, "eval() usage"@)]
    } else {
        Seq::empty()
    };
    let s = if secret_issue(rel, t) {
        seq![(rel, ln, "secret"@, "Possible hardcoded secret"@)]
    } else {
        Seq::empty()
    };
    let q = if sql_issue(t) {
        seq![(rel, ln, "sql_injection"@, "SQL with string interpolation"@)]
    } else {
        Seq::empty()
    };
    e + s + q
}

/// The security findings of the lines `ls`, numbered from 1.
pub open spec fn issues_in(rel: Seq<char>, ls: Seq<Seq<char>>) -> Seq<Finding>
    decreases ls.len(),
{
    if ls.len() == 0 {
        Seq::empty()
    } else {
        issues_in(rel, ls.drop_last()) + line_issues(rel, trim(ls.last()), ls.len() as u32)
    }
}

fn is_test_file_exec(rel: &[char]) -> (r: bool)
    ensures
        r == is_test_file(rel@),
{
    contains(rel, ".test.") || contains(rel, ".spec.") || contains(rel, "__tests__") || contains(
        rel,
        "/test/",
    ) || contains(rel, "/tests/") || contains(rel, ".security.") || ends_with(rel, "_test.go")
}

fn is_jsx_html_attr_exec(lower: &[char], t: &[char]) -> (r: bool)
    ensures
        r == is_jsx_html_attr(lower@, t@),
{
    contains(lower, "type=\"password\"") || contains(lower, "placeholder=") || contains(
        lower,
        "label=",
    ) || contains(lower, "aria-") || contains(lower, "htmlfor=") || contains(lower, "classname=")
        || contains(lower, "name=\"password\"") || contains(lower, "name=\"token\"") || contains(
        lower,
        "id=\"password\"",
    ) || contains(lower, "id=\"token\"") || contains(lower, "id=\"confirmpassword\"") || contains(
        lower,
        "id=\"newpassword\"",
    ) || contains(lower, "id=\"currentpassword\"") || contains(lower, "autocomplete=") || contains(
        lower,
        "autocomplete=\"",
    ) || starts_with(t, "id=") || starts_with(t, "id=\"")
}

fn is_const_value_exec(v: &[char]) -> (r: bool)
    ensures
        r == is_const_value(v@),
{
    let n = v.len();
    let mut all = true;
    for i in 0..n
        invariant
            n == v@.len(),
            all == forall|j: int| 0 <= j < i ==> is_upper(#[trigger] v@[j]) || v@[j] == '_',
    {
        let c = v[i];
        let up = crate::text::char_is_upper(c);
        if !(up || c == '_') {
            all = false;
        }
    }
    all || starts_with(v, "PASSWORD_") || starts_with(v, "X-") || starts_with(v, "csrf")
        || starts_with(v, "session")
}

fn assigned_const_exec(t: &[char], pos: usize, quote: char) -> (r: bool)
    requires
        pos + 3 <= t@.len(),
    ensures
        r == assigned_const(t@, pos as int, quote),
{
    let tl = t.len();
    let after = slice_of(t, pos + 3, tl);
    assert(after@ =~= t@.skip(pos + 3));
    match find_char(after.as_slice(), quote) {
        Some(end) => {
            proof {
                crate::text::lemma_find_spec(after@, seq![quote]);
            }
            let v = slice_of(after.as_slice(), 0, end);
            assert(v@ =~= after@.take(end as int));
            is_const_value_exec(v.as_slice())
        },
        None => false,
    }
}

proof fn lemma_find_spec_bound(s: Seq<char>, p: Seq<char>)
    requires
        find_spec(s, p) is Some,
    ensures
        0 <= find_spec(s, p)->0 && find_spec(s, p)->0 + p.len() <= s.len(),
{
    crate::text::lemma_find_spec(s, p);
}

fn is_const_enum_exec(t: &[char]) -> (r: bool)
    ensures
        r == is_const_enum(t@),
{
    match find(t, "= \"") {
        Some(pos) => {
            proof {
                lemma_find_spec_bound(t@, "= \""@);
                reveal_strlit("= \"");
            }
            assigned_const_exec(t, pos, '"')
        },
        None => match find(t, "= '") {
            Some(pos) => {
                proof {
                    lemma_find_spec_bound(t@, "= '"@);
                    reveal_strlit("= '");
                }
                assigned_const_exec(t, pos, '\'')
            },
            None => false,
        },
    }
}

fn secret_issue_exec(rel: &[char], t: &[char]) -> (r: bool)
    ensures
        r == secret_issue(rel@, t@),
{
    let lw = to_lower(t);
    let lower = lw.as_slice();
    let names = contains(lower, "password") || contains(lower, "secret") || contains(
        lower,
        "api_key",
    ) || contains(lower, "apikey") || contains(lower, "token");
    let assigns = contains(t, "= \"") || contains(t, "= '") || contains(t, "=\"") || contains(
        t,
        "='",
    );
    let harmless = contains(lower, "process.env") || contains(lower, "env.") || contains(
        lower,
        "example",
    ) || contains(lower, "placeholder") || contains(lower, "test") || contains(lower, "mock");
    let type_def = starts_with(t, "type ") || starts_with(t, "interface ") || starts_with(
        t,
        "export type",
    ) || starts_with(t, "export interface");
    let react = contains(lower, "usestate") || contains(lower, "useform") || contains(
        lower,
        "formdata",
    );
    let empty_check = contains(t, "== \"\"") || contains(t, "!= \"\"") || contains(t, "=== '")
        || contains(t, "!== '") || contains(t, "=== \"") || contains(t, "!== \"");
    let lt: [char; 1] = ['<'];
    assert(lt@ =~= seq!['<']);
    let html = crate::text::starts_with_chars(t, &lt) || contains(lower, "<label") || contains(
        lower,
        "<input",
    ) || contains(lower, "<a ") || contains(lower, "<h1") || contains(lower, "<p ") || contains(
        lower,
        "<selectitem",
    );
    let prop = contains(t, "description=\"") || contains(t, "endpoint=\"") || contains(
        t,
        "value=\"",
    ) || contains(t, "href=\"") || contains(t, "style=\"") || contains(t, "class=\"");
    let err = contains(lower, "is required") || contains(lower, "do not match") || contains(
        lower,
        "must be",
    ) || contains(lower, "please") || contains(lower, "confirm your");
    let path = contains(lower, "/api/") || contains(lower, "path ==") || contains(
        lower,
        "path ===",
    );
    let email = contains(lower, "<h1") || contains(lower, "<p ") || contains(lower, "style=\"%s\"")
        || contains(lower, "class=\"");
    names && assigns && !starts_with(t, "//") && !starts_with(t, "*") && !harmless
        && !is_test_file_exec(rel) && !ends_with(rel, ".json") && !is_jsx_html_attr_exec(lower, t)
        && !type_def && !react && !empty_check && !is_const_enum_exec(t) && !html && !prop && !err
        && !path && !email
}

fn push_issue(v: &mut Vec<SecurityIssue>, rel: &str, ln: u32, kind: &str, detail: &str)
    ensures
        issue_views(final(v)@) == issue_views(old(v)@).push((rel@, ln, kind@, detail@)),
{
    let ghost old_v = issue_views(v@);
    v.push(SecurityIssue {
        file: string_of(chars_of(rel).as_slice()),
        line: ln,
        kind: string_of(chars_of(kind).as_slice()),
        detail: string_of(chars_of(detail).as_slice()),
    });
    assert(issue_views(v@) =~= old_v.push((rel@, ln, kind@, detail@)));
}

fn push_note(v: &mut Vec<DevNote>, rel: &str, ln: u32, kind: &str, text: String)
    ensures
        note_views(final(v)@) == note_views(old(v)@).push((rel@, ln, kind@, text@)),
{
    let ghost old_v = note_views(v@);
    let ghost tv = text@;
    v.push(DevNote {
        file: string_of(chars_of(rel).as_slice()),
        line: ln,
        kind: string_of(chars_of(kind).as_slice()),
        text,
    });
    assert(note_views(v@) =~= old_v.push((rel@, ln, kind@, tv)));
}

/// The note a trimmed line contributes for `marker`, as a list of zero or
/// one findings.
pub open spec fn note_entry(
    rel: Seq<char>,
    t: Seq<char>,
    marker: Seq<char>,
    mlen: int,
    kind: Seq<char>,
    ln: u32,
) -> Seq<Finding> {
    match marker_note(t, marker, mlen) {
        Some(text) => seq![(rel, ln, kind, text)],
        None => Seq::empty(),
    }
}

fn push_marker_note(v: &mut Vec<DevNote>, rel_path: &str, t: &[char], marker: &str, mlen: usize, ln: u32)
    requires
        mlen == marker@.len(),
    ensures
        note_views(final(v)@) == note_views(old(v)@) + note_entry(rel_path@, t@, marker@, mlen as int, marker@, ln),
{
    let ghost old_v = note_views(v@);
    match marker_note_exec(t, marker, mlen) {
        Some(text) => {
            push_note(v, rel_path, ln, marker, text);
        },
        None => {
            assert(old_v + Seq::<Finding>::empty() =~= old_v);
        },
    }
}

fn push_line_issues(v: &mut Vec<SecurityIssue>, rel_path: &str, rel: &[char], t: &[char], ln: u32)
    requires
        rel@ == rel_path@,
    ensures
        issue_views(final(v)@) == issue_views(old(v)@) + line_issues(rel_path@, t@, ln),
{
    let ghost before = issue_views(v@);
    let is_eval = contains(t, "eval(") && !starts_with(t, "//") && !starts_with(t, "*") && !(
    contains(t, "JSON.parse") || contains(t, "// safe"));
    if is_eval {
        push_issue(v, rel_path, ln, "eval", "eval() usage");
    }
    if secret_issue_exec(rel, t) {
        push_issue(v, rel_path, ln, "secret", "Possible hardcoded secret");
    }
    let is_sql = (contains(t, "SELECT") || contains(t, "INSERT") || contains(t, "DELETE")
        || contains(t, "UPDATE")) && (contains(t, "${") || contains(t, "` +") || contains(
        t,
        "' +",
    )) && !starts_with(t, "//");
    if is_sql {
        push_issue(v, rel_path, ln, "sql_injection", "SQL with string interpolation");
    }
    assert(issue_views(v@) =~= before + line_issues(rel_path@, t@, ln));
}

/// Scans the source text of the file `rel_path` line by line: TODO, FIXME
/// and HACK notes inside comments, and eval calls, hard-coded secrets and
/// interpolated SQL.
pub fn scan_source(rel_path: &str, source: &str) -> (r: ScanResults)
    ensures
        note_views(r.todos@) == notes_in(rel_path@, lines(source@), "TODO"@, 4, "TODO"@),
        note_views(r.fixmes@) == notes_in(rel_path@, lines(source@), "FIXME"@, 5, "FIXME"@),
        note_views(r.hacks@) == notes_in(rel_path@, lines(source@), "HACK"@, 4, "HACK"@),
        issue_views(r.security@) == issues_in(rel_path@, lines(source@)),
{
    let mut results = ScanResults::new();
    let ls = lines_str(source);
    let rel = chars_of(rel_path);
    let n = ls.len();
    let ghost all = lines(source@);
    proof {
        reveal_strlit("TODO");
        reveal_strlit("FIXME");
        reveal_strlit("HACK");
    }
    for i in 0..n
        invariant
            n == ls@.len(),
            views(ls@) == all,
            rel@ == rel_path@,
            "TODO"@.len() == 4 && "FIXME"@.len() == 5 && "HACK"@.len() == 4,
            note_views(results.todos@) == notes_in(rel_path@, all.take(i as int), "TODO"@, 4, "TODO"@),
            note_views(results.fixmes@) == notes_in(rel_path@, all.take(i as int), "FIXME"@, 5, "FIXME"@),
            note_views(results.hacks@) == notes_in(rel_path@, all.take(i as int), "HACK"@, 4, "HACK"@),
            issue_views(results.security@) == issues_in(rel_path@, all.take(i as int)),
    {
        let ghost pre = all.take(i as int);
        let ghost cur = all.take(i + 1);
        assert(cur.drop_last() =~= pre);
        assert(cur.last() == ls@[i as int]@);
        assert(cur.len() == i + 1);
        let trimmed = trim_chars(ls[i].as_slice());
        let t = trimmed.as_slice();
        let ln = (i + 1) as u32;
        let ghost old_todos = note_views(results.todos@);
        let ghost old_fixmes = note_views(results.fixmes@);
        let ghost old_hacks = note_views(results.hacks@);
        push_marker_note(&mut results.todos, rel_path, t, "TODO", 4, ln);
        push_marker_note(&mut results.fixmes, rel_path, t, "FIXME", 5, ln);
        push_marker_note(&mut results.hacks, rel_path, t, "HACK", 4, ln);
        push_line_issues(&mut results.security, rel_path, rel.as_slice(), t, ln);
        proof {
            match marker_note(trimmed@, "TODO"@, 4) {
                Some(x) => { assert(old_todos + seq![(rel_path@, ln, "TODO"@, x)] =~= old_todos.push((rel_path@, ln, "TODO"@, x))); },
                None => { assert(old_todos + Seq::<Finding>::empty() =~= old_todos); },
            }
            match marker_note(trimmed@, "FIXME"@, 5) {
                Some(x) => { assert(old_fixmes + seq![(rel_path@, ln, "FIXME"@, x)] =~= old_fixmes.push((rel_path@, ln, "FIXME"@, x))); },
                None => { assert(old_fixmes + Seq::<Finding>::empty() =~= old_fixmes); },
            }
            match marker_note(trimmed@, "HACK"@, 4) {
                Some(x) => { assert(old_hacks + seq![(rel_path@, ln, "HACK"@, x)] =~= old_hacks.push((rel_path@, ln, "HACK"@, x))); },
                None => { assert(old_hacks + Seq::<Finding>::empty() =~= old_hacks); },
            }
        }
    }
    assert(all.take(n as int) =~= all);
    results
}

// ---------------------------------------------------------------------------
// Tests and the files they cover
// ---------------------------------------------------------------------------

#[derive(Default)]
pub struct TestMap {
    pub source_count: u32,
    pub test_count: u32,
    pub covered: Vec<(String, String)>,
    pub uncovered: Vec<String>,
}

/// A test file: `.test.` or `.spec.` in its name, or under `/__tests__/`,
/// `/test/` or `/tests/`.
pub open spec fn is_test_entry(f: Seq<char>) -> bool {
    let name = last_piece(f, '/');
    contains_sub(name, ".test."@) || contains_sub(name, ".spec."@) || contains_sub(f, "/__tests__/"@)
        || contains_sub(f, "/test/"@) || contains_sub(f, "/tests/"@)
}

/// The files of `fs` that satisfy `pred`, in order.
pub open spec fn files_where(fs: Seq<Seq<char>>, pred: spec_fn(Seq<char>) -> bool) -> Seq<Seq<char>>
    decreases fs.len(),
{
    if fs.len() == 0 {
        Seq::empty()
    } else if pred(fs.last()) {
        files_where(fs.drop_last(), pred).push(fs.last())
    } else {
        files_where(fs.drop_last(), pred)
    }
}

/// The test files of `fs`, in order.
pub open spec fn test_files(fs: Seq<Seq<char>>) -> Seq<Seq<char>> {
    files_where(fs, |f: Seq<char>| is_test_entry(f))
}

/// The source files of `fs`, in order.
pub open spec fn source_files(fs: Seq<Seq<char>>) -> Seq<Seq<char>> {
    files_where(fs, |f: Seq<char>| !is_test_entry(f))
}

/// The file name a test file stands for: `.test.` and `.spec.` replaced by `.`.
pub open spec fn test_base(t: Seq<char>) -> Seq<char> {
    replace_all(replace_all(last_piece(t, '/'), ".test."@, "."@), ".spec."@, "."@)
}

/// The last of `tests` that stands for the file name `name`.
pub open spec fn test_for(tests: Seq<Seq<char>>, name: Seq<char>) -> Option<Seq<char>>
    decreases tests.len(),
{
    if tests.len() == 0 {
        None
    } else if test_base(tests.last()) == name {
        Some(tests.last())
    } else {
        test_for(tests.drop_last(), name)
    }
}

/// Each source file with the test that stands for it.
pub open spec fn covered_of(srcs: Seq<Seq<char>>, tests: Seq<Seq<char>>) -> Seq<(Seq<char>, Seq<char>)>
    decreases srcs.len(),
{
    if srcs.len() == 0 {
        Seq::empty()
    } else {
        let rest = covered_of(srcs.drop_last(), tests);
        match test_for(tests, last_piece(srcs.last(), '/')) {
            Some(t) => rest.push((srcs.last(), t)),
            None => rest,
        }
    }
}

/// The source files that no test stands for.
pub open spec fn uncovered_of(srcs: Seq<Seq<char>>, tests: Seq<Seq<char>>) -> Seq<Seq<char>>
    decreases srcs.len(),
{
    if srcs.len() == 0 {
        Seq::empty()
    } else {
        let rest = uncovered_of(srcs.drop_last(), tests);
        match test_for(tests, last_piece(srcs.last(), '/')) {
            Some(t) => rest,
            None => rest.push(srcs.last()),
        }
    }
}

fn is_test_entry_exec(f: &[char]) -> (r: bool)
    ensures
        r == is_test_entry(f@),
{
    let name = last_piece_chars(f, '/');
    contains(name.as_slice(), ".test.") || contains(name.as_slice(), ".spec.") || contains(
        f,
        "/__tests__/",
    ) || contains(f, "/test/") || contains(f, "/tests/")
}

fn test_base_exec(t: &[char]) -> (r: Vec<char>)
    ensures
        r@ == test_base(t@),
{
    let name = last_piece_chars(t, '/');
    let a = replace_str(name.as_slice(), ".test.", ".");
    replace_str(a.as_slice(), ".spec.", ".")
}

proof fn lemma_split_files(fs: Seq<Seq<char>>)
    ensures
        test_files(fs).len() + source_files(fs).len() == fs.len(),
        forall|i: int|
            0 <= i < test_files(fs).len() ==> fs.contains(#[trigger] test_files(fs)[i])
                && is_test_entry(test_files(fs)[i]),
        forall|i: int|
            0 <= i < source_files(fs).len() ==> fs.contains(#[trigger] source_files(fs)[i])
                && !is_test_entry(source_files(fs)[i]),
    decreases fs.len(),
{
    if fs.len() > 0 {
        let d = fs.drop_last();
        lemma_split_files(d);
        assert forall|i: int| 0 <= i < test_files(fs).len() implies fs.contains(
            #[trigger] test_files(fs)[i],
        ) && is_test_entry(test_files(fs)[i]) by {
            if i < test_files(d).len() {
                assert(test_files(fs)[i] == test_files(d)[i]);
                let k = choose|k: int| 0 <= k < d.len() && d[k] == test_files(d)[i];
                assert(fs[k] == d[k]);
            } else {
                assert(test_files(fs)[i] == fs.last());
                assert(fs[fs.len() - 1] == fs.last());
            }
        }
        assert forall|i: int| 0 <= i < source_files(fs).len() implies fs.contains(
            #[trigger] source_files(fs)[i],
        ) && !is_test_entry(source_files(fs)[i]) by {
            if i < source_files(d).len() {
                assert(source_files(fs)[i] == source_files(d)[i]);
                let k = choose|k: int| 0 <= k < d.len() && d[k] == source_files(d)[i];
                assert(fs[k] == d[k]);
            } else {
                assert(source_files(fs)[i] == fs.last());
                assert(fs[fs.len() - 1] == fs.last());
            }
        }
    }
}

proof fn lemma_test_for(tests: Seq<Seq<char>>, name: Seq<char>)
    ensures
        test_for(tests, name) matches Some(t) ==> tests.contains(t) && test_base(t) == name,
        test_for(tests, name) is None ==> forall|t: Seq<char>|
            #[trigger] tests.contains(t) ==> test_base(t) != name,
    decreases tests.len(),
{
    if tests.len() > 0 {
        let d = tests.drop_last();
        lemma_test_for(d, name);
        assert(tests[tests.len() - 1] == tests.last());
        if let Some(t) = test_for(d, name) {
            let k = choose|k: int| 0 <= k < d.len() && d[k] == t;
            assert(tests[k] == d[k]);
        }
        assert forall|t: Seq<char>| #[trigger] tests.contains(t) && t != tests.last() implies d.contains(t) by {
            let k = choose|k: int| 0 <= k < tests.len() && tests[k] == t;
            assert(d[k] == tests[k]);
        }
    }
}

proof fn lemma_cover_split(srcs: Seq<Seq<char>>, tests: Seq<Seq<char>>)
    ensures
        covered_of(srcs, tests).len() + uncovered_of(srcs, tests).len() == srcs.len(),
        forall|i: int|
            0 <= i < covered_of(srcs, tests).len() ==> srcs.contains(
                #[trigger] covered_of(srcs, tests)[i].0,
            ) && test_for(tests, last_piece(covered_of(srcs, tests)[i].0, '/')) == Some(
                covered_of(srcs, tests)[i].1,
            ),
        forall|i: int|
            0 <= i < uncovered_of(srcs, tests).len() ==> srcs.contains(
                #[trigger] uncovered_of(srcs, tests)[i],
            ) && test_for(tests, last_piece(uncovered_of(srcs, tests)[i], '/')) is None,
    decreases srcs.len(),
{
    if srcs.len() > 0 {
        let d = srcs.drop_last();
        lemma_cover_split(d, tests);
        let c = covered_of(srcs, tests);
        let u = uncovered_of(srcs, tests);
        assert(srcs[srcs.len() - 1] == srcs.last());
        assert forall|i: int| 0 <= i < c.len() implies srcs.contains(#[trigger] c[i].0) && test_for(
            tests,
            last_piece(c[i].0, '/'),
        ) == Some(c[i].1) by {
            if i < covered_of(d, tests).len() {
                assert(c[i] == covered_of(d, tests)[i]);
                let k = choose|k: int| 0 <= k < d.len() && d[k] == covered_of(d, tests)[i].0;
                assert(srcs[k] == d[k]);
            }
        }
        assert forall|i: int| 0 <= i < u.len() implies srcs.contains(#[trigger] u[i]) && test_for(
            tests,
            last_piece(u[i], '/'),
        ) is None by {
            if i < uncovered_of(d, tests).len() {
                assert(u[i] == uncovered_of(d, tests)[i]);
                let k = choose|k: int| 0 <= k < d.len() && d[k] == uncovered_of(d, tests)[i];
                assert(srcs[k] == d[k]);
            }
        }
    }
}

/// Every file is a test file or a source file, never both; every source
/// file is either covered, paired with a test file named after it, or
/// uncovered, with no test file named after it.
pub proof fn lemma_test_map_partition(fs: Seq<Seq<char>>)
    ensures
        test_files(fs).len() + source_files(fs).len() == fs.len(),
        covered_of(source_files(fs), test_files(fs)).len() + uncovered_of(
            source_files(fs),
            test_files(fs),
        ).len() == source_files(fs).len(),
        forall|i: int|
            0 <= i < covered_of(source_files(fs), test_files(fs)).len() ==> {
                let (s, t) = #[trigger] covered_of(source_files(fs), test_files(fs))[i];
                &&& fs.contains(s) && !is_test_entry(s)
                &&& fs.contains(t) && is_test_entry(t)
                &&& test_base(t) == last_piece(s, '/')
            },
        forall|i: int|
            0 <= i < uncovered_of(source_files(fs), test_files(fs)).len() ==> {
                let u = #[trigger] uncovered_of(source_files(fs), test_files(fs))[i];
                &&& fs.contains(u) && !is_test_entry(u)
                &&& forall|t: Seq<char>|
                    #[trigger] test_files(fs).contains(t) ==> test_base(t) != last_piece(u, '/')
            },
{
    let tests = test_files(fs);
    let srcs = source_files(fs);
    lemma_split_files(fs);
    lemma_cover_split(srcs, tests);
    let c = covered_of(srcs, tests);
    let u = uncovered_of(srcs, tests);
    assert forall|i: int| 0 <= i < c.len() implies {
        let (s, t) = #[trigger] c[i];
        &&& fs.contains(s) && !is_test_entry(s)
        &&& fs.contains(t) && is_test_entry(t)
        &&& test_base(t) == last_piece(s, '/')
    } by {
        let k = choose|k: int| 0 <= k < srcs.len() && srcs[k] == c[i].0;
        assert(fs.contains(srcs[k]) && !is_test_entry(srcs[k]));
        lemma_test_for(tests, last_piece(c[i].0, '/'));
        let q = choose|q: int| 0 <= q < tests.len() && tests[q] == c[i].1;
        assert(fs.contains(tests[q]) && is_test_entry(tests[q]));
    }
    assert forall|i: int| 0 <= i < u.len() implies {
        let v = #[trigger] u[i];
        &&& fs.contains(v) && !is_test_entry(v)
        &&& forall|t: Seq<char>| #[trigger] tests.contains(t) ==> test_base(t) != last_piece(v, '/')
    } by {
        let k = choose|k: int| 0 <= k < srcs.len() && srcs[k] == u[i];
        assert(fs.contains(srcs[k]) && !is_test_entry(srcs[k]));
        lemma_test_for(tests, last_piece(u[i], '/'));
    }
}

/// Pairs source files with the test files named after them: `a.ts` with
/// `a.test.ts` or `a.spec.ts`.
pub fn map_tests(files: &Vec<String>) -> (m: TestMap)
    ensures
        ({
            let fs = strs(files@);
            let tests = test_files(fs);
            let srcs = source_files(fs);
            &&& m.source_count == srcs.len() as u32
            &&& m.test_count == tests.len() as u32
            &&& crate::depgraph::named_views(m.covered@) == covered_of(srcs, tests)
            &&& strs(m.uncovered@) == uncovered_of(srcs, tests)
        }),
{
    let fv = crate::text::chars_of_all(files);
    let n = fv.len();
    let ghost fs = strs(files@);
    let ghost pt = |f: Seq<char>| is_test_entry(f);
    let ghost ps = |f: Seq<char>| !is_test_entry(f);
    let mut tests: Vec<Vec<char>> = Vec::new();
    let mut srcs: Vec<Vec<char>> = Vec::new();
    for i in 0..n
        invariant
            n == fv@.len(),
            views(fv@) == fs,
            pt == (|f: Seq<char>| is_test_entry(f)),
            ps == (|f: Seq<char>| !is_test_entry(f)),
            views(tests@) == files_where(fs.take(i as int), pt),
            views(srcs@) == files_where(fs.take(i as int), ps),
    {
        assert(fs.take(i + 1).drop_last() =~= fs.take(i as int));
        assert(fs.take(i + 1).last() == fv@[i as int]@);
        let f = slice_of(fv[i].as_slice(), 0, fv[i].len());
        assert(f@ =~= fv@[i as int]@);
        if is_test_entry_exec(fv[i].as_slice()) {
            let ghost old_t = views(tests@);
            tests.push(f);
            assert(views(tests@) =~= old_t.push(fv@[i as int]@));
        } else {
            let ghost old_s = views(srcs@);
            srcs.push(f);
            assert(views(srcs@) =~= old_s.push(fv@[i as int]@));
        }
    }
    assert(fs.take(n as int) =~= fs);
    let mut bases: Vec<Vec<char>> = Vec::new();
    let nt = tests.len();
    for i in 0..nt
        invariant
            nt == tests@.len(),
            bases@.len() == i,
            forall|j: int| 0 <= j < i ==> #[trigger] bases@[j]@ == test_base(tests@[j]@),
    {
        bases.push(test_base_exec(tests[i].as_slice()));
    }
    let mut covered: Vec<(String, String)> = Vec::new();
    let mut uncovered: Vec<String> = Vec::new();
    let ns = srcs.len();
    let ghost tv = views(tests@);
    let ghost sv = views(srcs@);
    for i in 0..ns
        invariant
            ns == srcs@.len(),
            nt == tests@.len() == bases@.len(),
            tv == views(tests@),
            sv == views(srcs@),
            forall|j: int| 0 <= j < nt ==> #[trigger] bases@[j]@ == test_base(tests@[j]@),
            crate::depgraph::named_views(covered@) == covered_of(sv.take(i as int), tv),
            strs(uncovered@) == uncovered_of(sv.take(i as int), tv),
    {
        assert(sv.take(i + 1).drop_last() =~= sv.take(i as int));
        assert(sv.take(i + 1).last() == srcs@[i as int]@);
        let name = last_piece_chars(srcs[i].as_slice(), '/');
        let mut found: Option<usize> = None;
        let mut j = nt;
        assert(tv.take(nt as int) =~= tv);
        while j > 0
            invariant
                j <= nt,
                nt == tests@.len() == bases@.len(),
                tv == views(tests@),
                forall|q: int| 0 <= q < nt ==> #[trigger] bases@[q]@ == test_base(tests@[q]@),
                found is None ==> test_for(tv, name@) == test_for(tv.take(j as int), name@),
                found matches Some(k) ==> k < nt && test_for(tv, name@) == Some(tv[k as int]),
            decreases j,
        {
            if found.is_none() {
                let ghost tj = tv.take(j as int);
                assert(tj.drop_last() =~= tv.take(j - 1));
                assert(tj.last() == tests@[j - 1]@);
                if crate::text::eq_chars(bases[j - 1].as_slice(), name.as_slice()) {
                    found = Some(j - 1);
                }
            }
            j -= 1;
        }
        let ghost old_c = crate::depgraph::named_views(covered@);
        let ghost old_u = strs(uncovered@);
        match found {
            Some(k) => {
                covered.push((string_of(srcs[i].as_slice()), string_of(tests[k].as_slice())));
                assert(crate::depgraph::named_views(covered@) =~= old_c.push((srcs@[i as int]@, tv[k as int])));
            },
            None => {
                assert(tv.take(0) =~= Seq::<Seq<char>>::empty());
                uncovered.push(string_of(srcs[i].as_slice()));
                assert(strs(uncovered@) =~= old_u.push(srcs@[i as int]@));
            },
        }
    }
    assert(sv.take(ns as int) =~= sv);
    TestMap {
        source_count: srcs.len() as u32,
        test_count: tests.len() as u32,
        covered,
        uncovered,
    }
}

} // verus!
