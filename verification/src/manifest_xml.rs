//! The manifest document format: an XML subset covering what a fleet
//! manifest holds. A document is a prolog, comments and one root element;
//! the root's direct children named `project` and `include` carry the data,
//! all other elements and attributes are ignored. The grammar is defined by
//! the `spec_*` functions here; the executable parser is proved to return
//! exactly what the grammar denotes.

use vstd::prelude::*;
use crate::repo_project_selector::{Include, Manifest, ManifestView, Project, ProjectView};
use crate::repo_project_selector::str_eq;
use crate::text::push_char;

verus! {

/// A manifest file could not be understood.
#[derive(Debug)]
pub enum ParseError {
    /// The document does not follow the manifest grammar, or a `project` or
    /// `include` element misses a required attribute.
    Malformed,
    /// An included manifest is not among the supplied files; carries the
    /// include name.
    MissingInclude(String),
    /// An include is reached a second time while resolving; carries the
    /// include name.
    IncludeCycle(String),
}

// ---------------------------------------------------------------------------
// Character classes
// ---------------------------------------------------------------------------
/// Whitespace inside markup: space, tab, line feed, carriage return.
pub open spec fn xml_ws(c: char) -> bool {
    c == ' ' || c == '\t' || c == '\n' || c == '\r'
}

/// Characters allowed in element and attribute names.
pub open spec fn name_char(c: char) -> bool {
    (97 <= c as u32 && c as u32 <= 122)  // 'a'..='z'
     || (65 <= c as u32 && c as u32 <= 90)  // 'A'..='Z'
     || (48 <= c as u32 && c as u32 <= 57)  // '0'..='9'
     || c == '_' || c == '-' || c == '.' || c == ':'
}

fn is_xml_ws(c: char) -> (r: bool)
    ensures
        r == xml_ws(c),
{
    c == ' ' || c == '\t' || c == '\n' || c == '\r'
}

fn is_name_char(c: char) -> (r: bool)
    ensures
        r == name_char(c),
{
    let u = c as u32;
    (97 <= u && u <= 122) || (65 <= u && u <= 90) || (48 <= u && u <= 57) || c == '_' || c == '-'
        || c == '.' || c == ':'
}

// ---------------------------------------------------------------------------
// Scanning primitives
// ---------------------------------------------------------------------------
/// First position at or after `i` holding a non-whitespace character (or the
/// end of the input).
pub open spec fn spec_skip_ws(s: Seq<char>, i: int) -> int
    decreases s.len() - i,
{
    if i < s.len() && xml_ws(s[i]) {
        spec_skip_ws(s, i + 1)
    } else {
        i
    }
}

pub proof fn lemma_skip_ws_bounds(s: Seq<char>, i: int)
    requires
        0 <= i,
    ensures
        i <= spec_skip_ws(s, i),
        i <= s.len() ==> spec_skip_ws(s, i) <= s.len(),
    decreases s.len() - i,
{
    if i < s.len() && xml_ws(s[i]) {
        lemma_skip_ws_bounds(s, i + 1);
    }
}

fn skip_ws(s: &Vec<char>, i: usize) -> (j: usize)
    requires
        i <= s@.len(),
    ensures
        j == spec_skip_ws(s@, i as int),
        i <= j <= s@.len(),
{
    let mut j = i;
    while j < s.len() && is_xml_ws(s[j])
        invariant
            i <= j <= s@.len(),
            spec_skip_ws(s@, i as int) == spec_skip_ws(s@, j as int),
        decreases s@.len() - j,
    {
        j = j + 1;
    }
    j
}

/// End of the run of name characters starting at `i`.
pub open spec fn spec_name_end(s: Seq<char>, i: int) -> int
    decreases s.len() - i,
{
    if i < s.len() && name_char(s[i]) {
        spec_name_end(s, i + 1)
    } else {
        i
    }
}

pub proof fn lemma_name_end_bounds(s: Seq<char>, i: int)
    requires
        0 <= i,
    ensures
        i <= spec_name_end(s, i),
        i <= s.len() ==> spec_name_end(s, i) <= s.len(),
    decreases s.len() - i,
{
    if i < s.len() && name_char(s[i]) {
        lemma_name_end_bounds(s, i + 1);
    }
}

fn name_end(s: &Vec<char>, i: usize) -> (j: usize)
    requires
        i <= s@.len(),
    ensures
        j == spec_name_end(s@, i as int),
        i <= j <= s@.len(),
{
    let mut j = i;
    while j < s.len() && is_name_char(s[j])
        invariant
            i <= j <= s@.len(),
            spec_name_end(s@, i as int) == spec_name_end(s@, j as int),
        decreases s@.len() - j,
    {
        j = j + 1;
    }
    j
}

/// The characters of `s` between `from` and `to`, as a string.
fn string_range(s: &Vec<char>, from: usize, to: usize) -> (r: String)
    requires
        from <= to <= s@.len(),
    ensures
        r@ == s@.subrange(from as int, to as int),
{
    let mut r = String::new();
    let mut k = from;
    while k < to
        invariant
            from <= k <= to <= s@.len(),
            r@ == s@.subrange(from as int, k as int),
        decreases to - k,
    {
        push_char(&mut r, s[k]);
        proof {
            assert(s@.subrange(from as int, (k + 1) as int) =~= s@.subrange(
                from as int,
                k as int,
            ).push(s@[k as int]));
        }
        k = k + 1;
    }
    r
}

// ---------------------------------------------------------------------------
// Attribute values and entities
// ---------------------------------------------------------------------------
/// The five predefined entity references, spelled out at position `i` (which
/// holds the `&`).
pub open spec fn entity_amp(s: Seq<char>, i: int) -> bool {
    i + 5 <= s.len() && s[i + 1] == 'a' && s[i + 2] == 'm' && s[i + 3] == 'p' && s[i + 4] == ';'
}

pub open spec fn entity_lt(s: Seq<char>, i: int) -> bool {
    i + 4 <= s.len() && s[i + 1] == 'l' && s[i + 2] == 't' && s[i + 3] == ';'
}

pub open spec fn entity_gt(s: Seq<char>, i: int) -> bool {
    i + 4 <= s.len() && s[i + 1] == 'g' && s[i + 2] == 't' && s[i + 3] == ';'
}

pub open spec fn entity_apos(s: Seq<char>, i: int) -> bool {
    i + 6 <= s.len() && s[i + 1] == 'a' && s[i + 2] == 'p' && s[i + 3] == 'o' && s[i + 4] == 's'
        && s[i + 5] == ';'
}

pub open spec fn entity_quot(s: Seq<char>, i: int) -> bool {
    i + 6 <= s.len() && s[i + 1] == 'q' && s[i + 2] == 'u' && s[i + 3] == 'o' && s[i + 4] == 't'
        && s[i + 5] == ';'
}

/// The value of an attribute quoted with `q`, read from position `i` (right
/// after the opening quote) to the closing quote: entity references are
/// decoded, a stray `<` or `&` or a missing closing quote is an error.
/// Returns the decoded value and the position after the closing quote.
pub open spec fn spec_value(s: Seq<char>, i: int, q: char) -> Option<(Seq<char>, int)>
    decreases s.len() - i,
{
    if i < 0 || i >= s.len() {
        None
    } else if s[i] == q {
        Some((Seq::<char>::empty(), i + 1))
    } else if s[i] == '<' {
        None
    } else if s[i] == '&' {
        if entity_amp(s, i) {
            prepend_value('&', spec_value(s, i + 5, q))
        } else if entity_lt(s, i) {
            prepend_value('<', spec_value(s, i + 4, q))
        } else if entity_gt(s, i) {
            prepend_value('>', spec_value(s, i + 4, q))
        } else if entity_apos(s, i) {
            prepend_value('\'', spec_value(s, i + 6, q))
        } else if entity_quot(s, i) {
            prepend_value('"', spec_value(s, i + 6, q))
        } else {
            None
        }
    } else {
        prepend_value(s[i], spec_value(s, i + 1, q))
    }
}

/// Puts one decoded character in front of the rest of an attribute value.
pub open spec fn prepend_value(c: char, rest: Option<(Seq<char>, int)>) -> Option<(Seq<char>, int)> {
    match rest {
        None => None,
        Some((v, j)) => Some((seq![c] + v, j)),
    }
}

pub proof fn lemma_value_advances(s: Seq<char>, i: int, q: char)
    ensures
        match spec_value(s, i, q) {
            Some((_v, j)) => i < j <= s.len(),
            None => true,
        },
    decreases s.len() - i,
{
    if i < 0 || i >= s.len() {
    } else if s[i] == q {
    } else if s[i] == '<' {
    } else if s[i] == '&' {
        if entity_amp(s, i) {
            lemma_value_advances(s, i + 5, q);
        } else if entity_lt(s, i) {
            lemma_value_advances(s, i + 4, q);
        } else if entity_gt(s, i) {
            lemma_value_advances(s, i + 4, q);
        } else if entity_apos(s, i) {
            lemma_value_advances(s, i + 6, q);
        } else if entity_quot(s, i) {
            lemma_value_advances(s, i + 6, q);
        }
    } else {
        lemma_value_advances(s, i + 1, q);
    }
}

/// Reads a quoted attribute value (see [`spec_value`]).
fn scan_value(s: &Vec<char>, i: usize, q: char) -> (r: Option<(String, usize)>)
    requires
        i <= s@.len(),
    ensures
        match r {
            Some((v, j)) => spec_value(s@, i as int, q) == Some((v@, j as int)) && i < j
                <= s@.len(),
            None => spec_value(s@, i as int, q) is None,
        },
    decreases s@.len() - i,
{
    proof {
        lemma_value_advances(s@, i as int, q);
    }
    if i >= s.len() {
        return None;
    }
    let c = s[i];
    if c == q {
        return Some((String::new(), i + 1));
    }
    if c == '<' {
        return None;
    }
    if c == '&' {
        let (decoded, after): (char, usize) = if s.len() - i >= 5 && s[i + 1] == 'a' && s[i + 2]
            == 'm' && s[i + 3] == 'p' && s[i + 4] == ';' {
            ('&', i + 5)
        } else if s.len() - i >= 4 && s[i + 1] == 'l' && s[i + 2] == 't' && s[i + 3] == ';' {
            ('<', i + 4)
        } else if s.len() - i >= 4 && s[i + 1] == 'g' && s[i + 2] == 't' && s[i + 3] == ';' {
            ('>', i + 4)
        } else if s.len() - i >= 6 && s[i + 1] == 'a' && s[i + 2] == 'p' && s[i + 3] == 'o' && s[i
            + 4] == 's' && s[i + 5] == ';' {
            ('\'', i + 6)
        } else if s.len() - i >= 6 && s[i + 1] == 'q' && s[i + 2] == 'u' && s[i + 3] == 'o' && s[i
            + 4] == 't' && s[i + 5] == ';' {
            ('"', i + 6)
        } else {
            return None;
        };
        match scan_value(s, after, q) {
            None => return None,
            Some((rest, j)) => {
                let mut v = String::new();
                push_char(&mut v, decoded);
                v.append(rest.as_str());
                proof {
                    assert(v@ =~= seq![decoded] + rest@);
                }
                return Some((v, j));
            },
        }
    }
    match scan_value(s, i + 1, q) {
        None => None,
        Some((rest, j)) => {
            let mut v = String::new();
            push_char(&mut v, c);
            v.append(rest.as_str());
            proof {
                assert(v@ =~= seq![c] + rest@);
            }
            Some((v, j))
        },
    }
}

// ---------------------------------------------------------------------------
// Attribute lists
// ---------------------------------------------------------------------------
/// The attributes of a tag, read from position `i` up to (but not including)
/// the `>` or `/>` that ends the tag: `name="value"` pairs separated by
/// whitespace, with `'` or `"` quoting. Returns the pairs and the position of
/// the first character after them (whitespace consumed).
pub open spec fn spec_attrs(s: Seq<char>, i: int) -> Option<(Seq<(Seq<char>, Seq<char>)>, int)>
    decreases s.len() - i,
{
    if i < 0 {
        None
    } else {
        let j = spec_skip_ws(s, i);
        if j < s.len() && name_char(s[j]) {
            let ne = spec_name_end(s, j);
            let name = s.subrange(j, ne);
            let k = spec_skip_ws(s, ne);
            if k < s.len() && s[k] == '=' {
                let vq = spec_skip_ws(s, k + 1);
                if vq < s.len() && (s[vq] == '"' || s[vq] == '\'') {
                    match spec_value(s, vq + 1, s[vq]) {
                        None => None,
                        Some((val, m)) => {
                            proof {
                                lemma_skip_ws_bounds(s, i);
                                lemma_name_end_bounds(s, j);
                                lemma_skip_ws_bounds(s, ne);
                                lemma_skip_ws_bounds(s, k + 1);
                                lemma_value_advances(s, vq + 1, s[vq]);
                            }
                            match spec_attrs(s, m) {
                                None => None,
                                Some((rest, end)) => Some((seq![(name, val)] + rest, end)),
                            }
                        },
                    }
                } else {
                    None
                }
            } else {
                None
            }
        } else {
            Some((Seq::<(Seq<char>, Seq<char>)>::empty(), j))
        }
    }
}

pub proof fn lemma_attrs_advances(s: Seq<char>, i: int)
    requires
        0 <= i <= s.len(),
    ensures
        match spec_attrs(s, i) {
            Some((_a, end)) => i <= end <= s.len(),
            None => true,
        },
    decreases s.len() - i,
{
    lemma_skip_ws_bounds(s, i);
    let j = spec_skip_ws(s, i);
    if j < s.len() && name_char(s[j]) {
        lemma_name_end_bounds(s, j);
        let ne = spec_name_end(s, j);
        lemma_skip_ws_bounds(s, ne);
        let k = spec_skip_ws(s, ne);
        if k < s.len() && s[k] == '=' {
            lemma_skip_ws_bounds(s, k + 1);
            let vq = spec_skip_ws(s, k + 1);
            if vq < s.len() && (s[vq] == '"' || s[vq] == '\'') {
                lemma_value_advances(s, vq + 1, s[vq]);
                match spec_value(s, vq + 1, s[vq]) {
                    None => {},
                    Some((_val, m)) => {
                        lemma_attrs_advances(s, m);
                    },
                }
            }
        }
    }
}

/// Reads a tag's attributes (see [`spec_attrs`]).
fn scan_attrs(s: &Vec<char>, i: usize) -> (r: Option<(Vec<(String, String)>, usize)>)
    requires
        i <= s@.len(),
    ensures
        match r {
            Some((a, end)) => spec_attrs(s@, i as int) == Some((a.deep_view(), end as int)) && i
                <= end <= s@.len(),
            None => spec_attrs(s@, i as int) is None,
        },
    decreases s@.len() - i,
{
    proof {
        lemma_attrs_advances(s@, i as int);
    }
    let j = skip_ws(s, i);
    if !(j < s.len() && is_name_char(s[j])) {
        let empty: Vec<(String, String)> = Vec::new();
        proof {
            assert(empty.deep_view() =~= Seq::<(Seq<char>, Seq<char>)>::empty());
        }
        return Some((empty, j));
    }
    let ne = name_end(s, j);
    let name = string_range(s, j, ne);
    let k = skip_ws(s, ne);
    if !(k < s.len() && s[k] == '=') {
        return None;
    }
    let vq = skip_ws(s, k + 1);
    if !(vq < s.len() && (s[vq] == '"' || s[vq] == '\'')) {
        return None;
    }
    let q = s[vq];
    match scan_value(s, vq + 1, q) {
        None => None,
        Some((val, m)) => {
            match scan_attrs(s, m) {
                None => None,
                Some((rest, end)) => {
                    let ghost rest_dv = rest.deep_view();
                    let mut attrs = rest;
                    attrs.insert(0, (name, val));
                    proof {
                        assert(attrs.deep_view() =~~= seq![(name@, val@)] + rest_dv);
                    }
                    Some((attrs, end))
                },
            }
        },
    }
}

// ---------------------------------------------------------------------------
// Tags
// ---------------------------------------------------------------------------
/// One piece of markup: an opening tag with its attributes, a closing tag, or
/// a self-closing tag.
pub enum Tag {
    Open { name: String, attrs: Vec<(String, String)> },
    Close { name: String },
    SelfClose { name: String, attrs: Vec<(String, String)> },
}

/// Mathematical image of a [`Tag`].
pub ghost enum TagView {
    Open { name: Seq<char>, attrs: Seq<(Seq<char>, Seq<char>)> },
    Close { name: Seq<char> },
    SelfClose { name: Seq<char>, attrs: Seq<(Seq<char>, Seq<char>)> },
}

impl View for Tag {
    type V = TagView;

    open spec fn view(&self) -> TagView {
        match self {
            Tag::Open { name, attrs } => TagView::Open {
                name: name@,
                attrs: attrs.deep_view(),
            },
            Tag::Close { name } => TagView::Close { name: name@ },
            Tag::SelfClose { name, attrs } => TagView::SelfClose {
                name: name@,
                attrs: attrs.deep_view(),
            },
        }
    }
}

impl DeepView for Tag {
    type V = TagView;

    open spec fn deep_view(&self) -> TagView {
        self.view()
    }
}

/// Outcome of scanning for the next tag: a tag and the position after it,
/// the end of the input, or a violation of the grammar.
pub ghost enum TokStep {
    Tok(TagView, int),
    End,
    Fail,
}

// ---------------------------------------------------------------------------
// Skipping comments, processing instructions and declarations
// ---------------------------------------------------------------------------
/// Position right after the `-->` that closes a comment whose body starts at
/// `i`; `None` when the comment never closes.
pub open spec fn spec_skip_comment(s: Seq<char>, i: int) -> Option<int>
    decreases s.len() - i,
{
    if i < 0 || i + 3 > s.len() {
        None
    } else if s[i] == '-' && s[i + 1] == '-' && s[i + 2] == '>' {
        Some(i + 3)
    } else {
        spec_skip_comment(s, i + 1)
    }
}

pub proof fn lemma_skip_comment_advances(s: Seq<char>, i: int)
    ensures
        match spec_skip_comment(s, i) {
            Some(j) => i < j <= s.len(),
            None => true,
        },
    decreases s.len() - i,
{
    if i < 0 || i + 3 > s.len() {
    } else if s[i] == '-' && s[i + 1] == '-' && s[i + 2] == '>' {
    } else {
        lemma_skip_comment_advances(s, i + 1);
    }
}

/// Position right after the `?>` that closes a processing instruction.
pub open spec fn spec_skip_pi(s: Seq<char>, i: int) -> Option<int>
    decreases s.len() - i,
{
    if i < 0 || i + 2 > s.len() {
        None
    } else if s[i] == '?' && s[i + 1] == '>' {
        Some(i + 2)
    } else {
        spec_skip_pi(s, i + 1)
    }
}

pub proof fn lemma_skip_pi_advances(s: Seq<char>, i: int)
    ensures
        match spec_skip_pi(s, i) {
            Some(j) => i < j <= s.len(),
            None => true,
        },
    decreases s.len() - i,
{
    if i < 0 || i + 2 > s.len() {
    } else if s[i] == '?' && s[i + 1] == '>' {
    } else {
        lemma_skip_pi_advances(s, i + 1);
    }
}

/// Position right after the `>` that closes a `<!...>` declaration.
pub open spec fn spec_skip_decl(s: Seq<char>, i: int) -> Option<int>
    decreases s.len() - i,
{
    if i < 0 || i >= s.len() {
        None
    } else if s[i] == '>' {
        Some(i + 1)
    } else {
        spec_skip_decl(s, i + 1)
    }
}

pub proof fn lemma_skip_decl_advances(s: Seq<char>, i: int)
    ensures
        match spec_skip_decl(s, i) {
            Some(j) => i < j <= s.len(),
            None => true,
        },
    decreases s.len() - i,
{
    if i < 0 || i >= s.len() {
    } else if s[i] == '>' {
    } else {
        lemma_skip_decl_advances(s, i + 1);
    }
}

// ---------------------------------------------------------------------------
// The tokenizer
// ---------------------------------------------------------------------------
/// The next tag at or after position `i`: character data, comments,
/// processing instructions and declarations before it are skipped.
pub open spec fn spec_next_token(s: Seq<char>, i: int) -> TokStep
    decreases s.len() - i,
{
    if i < 0 || i >= s.len() {
        TokStep::End
    } else if s[i] != '<' {
        spec_next_token(s, i + 1)
    } else if i + 4 <= s.len() && s[i + 1] == '!' && s[i + 2] == '-' && s[i + 3] == '-' {
        match spec_skip_comment(s, i + 4) {
            None => TokStep::Fail,
            Some(j) => {
                proof {
                    lemma_skip_comment_advances(s, i + 4);
                }
                spec_next_token(s, j)
            },
        }
    } else if i + 2 <= s.len() && s[i + 1] == '?' {
        match spec_skip_pi(s, i + 2) {
            None => TokStep::Fail,
            Some(j) => {
                proof {
                    lemma_skip_pi_advances(s, i + 2);
                }
                spec_next_token(s, j)
            },
        }
    } else if i + 2 <= s.len() && s[i + 1] == '!' {
        match spec_skip_decl(s, i + 2) {
            None => TokStep::Fail,
            Some(j) => {
                proof {
                    lemma_skip_decl_advances(s, i + 2);
                }
                spec_next_token(s, j)
            },
        }
    } else if i + 2 <= s.len() && s[i + 1] == '/' {
        let ne = spec_name_end(s, i + 2);
        if ne == i + 2 {
            TokStep::Fail
        } else {
            let k = spec_skip_ws(s, ne);
            if k < s.len() && s[k] == '>' {
                TokStep::Tok(TagView::Close { name: s.subrange(i + 2, ne) }, k + 1)
            } else {
                TokStep::Fail
            }
        }
    } else {
        let ne = spec_name_end(s, i + 1);
        if ne == i + 1 {
            TokStep::Fail
        } else {
            match spec_attrs(s, ne) {
                None => TokStep::Fail,
                Some((attrs, k)) => {
                    let name = s.subrange(i + 1, ne);
                    if k < s.len() && s[k] == '>' {
                        TokStep::Tok(TagView::Open { name, attrs }, k + 1)
                    } else if k + 2 <= s.len() && s[k] == '/' && s[k + 1] == '>' {
                        TokStep::Tok(TagView::SelfClose { name, attrs }, k + 2)
                    } else {
                        TokStep::Fail
                    }
                },
            }
        }
    }
}

pub proof fn lemma_next_token_advances(s: Seq<char>, i: int)
    requires
        0 <= i,
    ensures
        match spec_next_token(s, i) {
            TokStep::Tok(_t, j) => i < j <= s.len(),
            _ => true,
        },
    decreases s.len() - i,
{
    if i >= s.len() {
    } else if s[i] != '<' {
        lemma_next_token_advances(s, i + 1);
    } else if i + 4 <= s.len() && s[i + 1] == '!' && s[i + 2] == '-' && s[i + 3] == '-' {
        lemma_skip_comment_advances(s, i + 4);
        match spec_skip_comment(s, i + 4) {
            None => {},
            Some(j) => {
                lemma_next_token_advances(s, j);
            },
        }
    } else if i + 2 <= s.len() && s[i + 1] == '?' {
        lemma_skip_pi_advances(s, i + 2);
        match spec_skip_pi(s, i + 2) {
            None => {},
            Some(j) => {
                lemma_next_token_advances(s, j);
            },
        }
    } else if i + 2 <= s.len() && s[i + 1] == '!' {
        lemma_skip_decl_advances(s, i + 2);
        match spec_skip_decl(s, i + 2) {
            None => {},
            Some(j) => {
                lemma_next_token_advances(s, j);
            },
        }
    } else if i + 2 <= s.len() && s[i + 1] == '/' {
        lemma_name_end_bounds(s, i + 2);
        lemma_skip_ws_bounds(s, spec_name_end(s, i + 2));
    } else {
        lemma_name_end_bounds(s, i + 1);
        let ne = spec_name_end(s, i + 1);
        if ne != i + 1 {
            lemma_attrs_advances(s, ne);
        }
    }
}

/// Outcome of the executable tag scanner (see [`TokStep`]).
pub enum ScanTok {
    Tok(Tag, usize),
    End,
    Fail,
}

/// The [`TokStep`] an executable scan outcome stands for.
pub open spec fn scan_tok_view(r: ScanTok) -> TokStep {
    match r {
        ScanTok::Tok(t, j) => TokStep::Tok(t@, j as int),
        ScanTok::End => TokStep::End,
        ScanTok::Fail => TokStep::Fail,
    }
}

fn skip_comment(s: &Vec<char>, i: usize) -> (r: Option<usize>)
    requires
        i <= s@.len(),
    ensures
        match r {
            Some(j) => spec_skip_comment(s@, i as int) == Some(j as int) && i < j <= s@.len(),
            None => spec_skip_comment(s@, i as int) is None,
        },
{
    proof {
        lemma_skip_comment_advances(s@, i as int);
    }
    let mut j = i;
    while s.len() - j >= 3 && !(s[j] == '-' && s[j + 1] == '-' && s[j + 2] == '>')
        invariant
            i <= j <= s@.len(),
            spec_skip_comment(s@, i as int) == spec_skip_comment(s@, j as int),
        decreases s@.len() - j,
    {
        j = j + 1;
    }
    if s.len() - j >= 3 {
        Some(j + 3)
    } else {
        None
    }
}

fn skip_pi(s: &Vec<char>, i: usize) -> (r: Option<usize>)
    requires
        i <= s@.len(),
    ensures
        match r {
            Some(j) => spec_skip_pi(s@, i as int) == Some(j as int) && i < j <= s@.len(),
            None => spec_skip_pi(s@, i as int) is None,
        },
{
    proof {
        lemma_skip_pi_advances(s@, i as int);
    }
    let mut j = i;
    while s.len() - j >= 2 && !(s[j] == '?' && s[j + 1] == '>')
        invariant
            i <= j <= s@.len(),
            spec_skip_pi(s@, i as int) == spec_skip_pi(s@, j as int),
        decreases s@.len() - j,
    {
        j = j + 1;
    }
    if s.len() - j >= 2 {
        Some(j + 2)
    } else {
        None
    }
}

fn skip_decl(s: &Vec<char>, i: usize) -> (r: Option<usize>)
    requires
        i <= s@.len(),
    ensures
        match r {
            Some(j) => spec_skip_decl(s@, i as int) == Some(j as int) && i < j <= s@.len(),
            None => spec_skip_decl(s@, i as int) is None,
        },
{
    proof {
        lemma_skip_decl_advances(s@, i as int);
    }
    let mut j = i;
    while j < s.len() && s[j] != '>'
        invariant
            i <= j <= s@.len(),
            spec_skip_decl(s@, i as int) == spec_skip_decl(s@, j as int),
        decreases s@.len() - j,
    {
        j = j + 1;
    }
    if j < s.len() {
        Some(j + 1)
    } else {
        None
    }
}

/// Scans the next tag at or after position `start` (see [`spec_next_token`]).
fn next_token(s: &Vec<char>, start: usize) -> (r: ScanTok)
    requires
        start <= s@.len(),
    ensures
        scan_tok_view(r) == spec_next_token(s@, start as int),
        r matches ScanTok::Tok(_t, j) ==> start < j <= s@.len(),
{
    proof {
        lemma_next_token_advances(s@, start as int);
    }
    let mut i = start;
    loop
        invariant
            start <= i <= s@.len(),
            spec_next_token(s@, start as int) == spec_next_token(s@, i as int),
        decreases s@.len() - i,
    {
        let ghost round_start = i;
        while i < s.len() && s[i] != '<'
            invariant
                start <= i <= s@.len(),
                round_start <= i,
                spec_next_token(s@, start as int) == spec_next_token(s@, i as int),
            decreases s@.len() - i,
        {
            i = i + 1;
        }
        if i >= s.len() {
            return ScanTok::End;
        }
        if s.len() - i >= 4 && s[i + 1] == '!' && s[i + 2] == '-' && s[i + 3] == '-' {
            match skip_comment(s, i + 4) {
                None => {
                    return ScanTok::Fail;
                },
                Some(j) => {
                    i = j;
                },
            }
        } else if s.len() - i >= 2 && s[i + 1] == '?' {
            match skip_pi(s, i + 2) {
                None => {
                    return ScanTok::Fail;
                },
                Some(j) => {
                    i = j;
                },
            }
        } else if s.len() - i >= 2 && s[i + 1] == '!' {
            match skip_decl(s, i + 2) {
                None => {
                    return ScanTok::Fail;
                },
                Some(j) => {
                    i = j;
                },
            }
        } else if s.len() - i >= 2 && s[i + 1] == '/' {
            let ne = name_end(s, i + 2);
            if ne == i + 2 {
                return ScanTok::Fail;
            }
            let k = skip_ws(s, ne);
            if k < s.len() && s[k] == '>' {
                let name = string_range(s, i + 2, ne);
                return ScanTok::Tok(Tag::Close { name }, k + 1);
            }
            return ScanTok::Fail;
        } else {
            let ne = name_end(s, i + 1);
            if ne == i + 1 {
                return ScanTok::Fail;
            }
            match scan_attrs(s, ne) {
                None => {
                    return ScanTok::Fail;
                },
                Some((attrs, k)) => {
                    let name = string_range(s, i + 1, ne);
                    if k < s.len() && s[k] == '>' {
                        return ScanTok::Tok(Tag::Open { name, attrs }, k + 1);
                    }
                    if s.len() - k >= 2 && s[k] == '/' && s[k + 1] == '>' {
                        return ScanTok::Tok(Tag::SelfClose { name, attrs }, k + 2);
                    }
                    return ScanTok::Fail;
                },
            }
        }
    }
}

/// All tags of the document, in order; `None` when the markup is malformed.
pub open spec fn spec_tokenize(s: Seq<char>, i: int) -> Option<Seq<TagView>>
    decreases s.len() - i,
{
    match spec_next_token(s, i) {
        TokStep::End => Some(Seq::<TagView>::empty()),
        TokStep::Fail => None,
        TokStep::Tok(t, j) => {
            proof {
                if 0 <= i {
                    lemma_next_token_advances(s, i);
                }
            }
            if i < 0 || j <= i || j > s.len() {
                None
            } else {
                match spec_tokenize(s, j) {
                    None => None,
                    Some(rest) => Some(seq![t] + rest),
                }
            }
        },
    }
}

/// Appends the tags still to be scanned onto those already scanned.
pub open spec fn opt_concat(pre: Seq<TagView>, rest: Option<Seq<TagView>>) -> Option<Seq<TagView>> {
    match rest {
        None => None,
        Some(r) => Some(pre + r),
    }
}

/// Splits a document into its tags (see [`spec_tokenize`]).
pub fn tokenize(s: &Vec<char>) -> (r: Option<Vec<Tag>>)
    ensures
        match r {
            Some(toks) => spec_tokenize(s@, 0) == Some(toks.deep_view()),
            None => spec_tokenize(s@, 0) is None,
        },
{
    let mut toks: Vec<Tag> = Vec::new();
    let mut i: usize = 0;
    proof {
        match spec_tokenize(s@, 0) {
            None => {},
            Some(r) => {
                assert(toks.deep_view() + r =~= r);
            },
        }
    }
    loop
        invariant
            i <= s@.len(),
            opt_concat(toks.deep_view(), spec_tokenize(s@, i as int)) == spec_tokenize(s@, 0),
        decreases s@.len() - i,
    {
        let ghost prev = toks.deep_view();
        match next_token(s, i) {
            ScanTok::End => {
                proof {
                    assert(prev + Seq::<TagView>::empty() =~= prev);
                }
                return Some(toks);
            },
            ScanTok::Fail => {
                return None;
            },
            ScanTok::Tok(t, j) => {
                proof {
                    lemma_next_token_advances(s@, i as int);
                }
                let ghost tv = t@;
                toks.push(t);
                proof {
                    assert(toks.deep_view() =~~= prev.push(tv));
                    match spec_tokenize(s@, j as int) {
                        None => {},
                        Some(rest) => {
                            assert(prev + (seq![tv] + rest) =~= prev.push(tv) + rest);
                        },
                    }
                }
                i = j;
            },
        }
    }
}

// ---------------------------------------------------------------------------
// From tags to a manifest
// ---------------------------------------------------------------------------
/// First value among the attributes with the given name.
pub open spec fn spec_attr_lookup(attrs: Seq<(Seq<char>, Seq<char>)>, name: Seq<char>) -> Option<
    Seq<char>,
>
    decreases attrs.len(),
{
    if attrs.len() == 0 {
        None
    } else if attrs[0].0 == name {
        Some(attrs[0].1)
    } else {
        spec_attr_lookup(attrs.skip(1), name)
    }
}

/// The project an element's attributes describe: `name` and `path` are
/// required, `groups` is optional; other attributes are ignored.
pub open spec fn spec_project_of_attrs(attrs: Seq<(Seq<char>, Seq<char>)>) -> Option<ProjectView> {
    match spec_attr_lookup(attrs, "name"@) {
        None => None,
        Some(n) => match spec_attr_lookup(attrs, "path"@) {
            None => None,
            Some(p) => Some(
                ProjectView { name: n, path: p, groups: spec_attr_lookup(attrs, "groups"@) },
            ),
        },
    }
}

/// The manifest with no projects and no includes.
pub open spec fn empty_manifest_view() -> ManifestView {
    ManifestView { projects: Seq::<ProjectView>::empty(), includes: Seq::<Seq<char>>::empty() }
}

/// What one tag adds to the manifest. Directly under the root (`depth` 1), a
/// `project` adds its project and an `include` adds its include name — with a
/// required attribute missing that is an error; other names, and anything
/// deeper, add nothing.
pub open spec fn spec_collect(
    acc: ManifestView,
    depth: int,
    name: Seq<char>,
    attrs: Seq<(Seq<char>, Seq<char>)>,
) -> Option<ManifestView> {
    if depth == 1 && name == "project"@ {
        match spec_project_of_attrs(attrs) {
            None => None,
            Some(p) => Some(
                ManifestView { projects: acc.projects.push(p), includes: acc.includes },
            ),
        }
    } else if depth == 1 && name == "include"@ {
        match spec_attr_lookup(attrs, "name"@) {
            None => None,
            Some(nm) => Some(
                ManifestView { projects: acc.projects, includes: acc.includes.push(nm) },
            ),
        }
    } else {
        Some(acc)
    }
}

/// Walks the tags after the root's opening tag, keeping the stack of open
/// element names: elements must nest properly, the root's closing tag must be
/// the last, and what the direct children contribute is collected.
pub open spec fn spec_walk(
    toks: Seq<TagView>,
    k: int,
    stack: Seq<Seq<char>>,
    acc: ManifestView,
) -> Option<ManifestView>
    decreases toks.len() - k,
{
    if k < 0 || k >= toks.len() {
        None
    } else {
        match toks[k] {
            TagView::Open { name, attrs } => {
                match spec_collect(acc, stack.len() as int, name, attrs) {
                    None => None,
                    Some(acc2) => spec_walk(toks, k + 1, stack.push(name), acc2),
                }
            },
            TagView::SelfClose { name, attrs } => {
                match spec_collect(acc, stack.len() as int, name, attrs) {
                    None => None,
                    Some(acc2) => spec_walk(toks, k + 1, stack, acc2),
                }
            },
            TagView::Close { name } => {
                if stack.len() == 0 || stack.last() != name {
                    None
                } else if stack.len() == 1 {
                    if k == toks.len() - 1 {
                        Some(acc)
                    } else {
                        None
                    }
                } else {
                    spec_walk(toks, k + 1, stack.drop_last(), acc)
                }
            },
        }
    }
}

/// The manifest a tag sequence denotes: one root element (of any name), its
/// direct `project` and `include` children collected in order.
pub open spec fn spec_parse_doc(toks: Seq<TagView>) -> Option<ManifestView> {
    if toks.len() == 0 {
        None
    } else {
        match toks[0] {
            TagView::SelfClose { name: _, attrs: _ } => if toks.len() == 1 {
                Some(empty_manifest_view())
            } else {
                None
            },
            TagView::Open { name, attrs: _ } => spec_walk(
                toks,
                1,
                seq![name],
                empty_manifest_view(),
            ),
            TagView::Close { name: _ } => None,
        }
    }
}

/// The manifest a document text denotes, or nothing when the text is
/// malformed.
pub open spec fn spec_parse_manifest(s: Seq<char>) -> Option<ManifestView> {
    match spec_tokenize(s, 0) {
        None => None,
        Some(toks) => spec_parse_doc(toks),
    }
}

/// First attribute with the given name (see [`spec_attr_lookup`]).
fn attr_lookup<'a>(attrs: &'a Vec<(String, String)>, name: &str) -> (r: Option<&'a String>)
    ensures
        match r {
            Some(v) => spec_attr_lookup(attrs.deep_view(), name@) == Some(v@),
            None => spec_attr_lookup(attrs.deep_view(), name@) is None,
        },
{
    let n = attrs.len();
    proof {
        assert(attrs.deep_view().skip(0) =~= attrs.deep_view());
    }
    let mut k: usize = 0;
    while k < n
        invariant
            n == attrs@.len(),
            k <= n,
            spec_attr_lookup(attrs.deep_view(), name@) == spec_attr_lookup(
                attrs.deep_view().skip(k as int),
                name@,
            ),
        decreases n - k,
    {
        proof {
            assert(attrs.deep_view().skip(k as int)[0] == attrs.deep_view()[k as int]);
            assert(attrs.deep_view().skip(k as int).skip(1) =~= attrs.deep_view().skip(
                (k + 1) as int,
            ));
        }
        if str_eq(attrs[k].0.as_str(), name) {
            return Some(&attrs[k].1);
        }
        k = k + 1;
    }
    proof {
        assert(attrs.deep_view().skip(n as int) =~= Seq::<(Seq<char>, Seq<char>)>::empty());
    }
    None
}

/// The project an element's attributes describe (see
/// [`spec_project_of_attrs`]).
fn project_of_attrs(attrs: &Vec<(String, String)>) -> (r: Option<Project>)
    ensures
        match r {
            Some(p) => spec_project_of_attrs(attrs.deep_view()) == Some(p@),
            None => spec_project_of_attrs(attrs.deep_view()) is None,
        },
{
    let name = match attr_lookup(attrs, "name") {
        None => {
            return None;
        },
        Some(v) => v.clone(),
    };
    let path = match attr_lookup(attrs, "path") {
        None => {
            return None;
        },
        Some(v) => v.clone(),
    };
    let groups = match attr_lookup(attrs, "groups") {
        None => None,
        Some(v) => Some(v.clone()),
    };
    Some(Project { name, path, groups })
}

/// Builds the manifest a tag sequence denotes (see [`spec_parse_doc`]).
fn build_doc(toks: &Vec<Tag>) -> (r: Result<Manifest, ParseError>)
    ensures
        match r {
            Ok(m) => spec_parse_doc(toks.deep_view()) == Some(m@),
            Err(e) => spec_parse_doc(toks.deep_view()) is None && e matches ParseError::Malformed,
        },
{
    let n = toks.len();
    if n == 0 {
        return Err(ParseError::Malformed);
    }
    let root_name = match &toks[0] {
        Tag::Close { name: _ } => {
            return Err(ParseError::Malformed);
        },
        Tag::SelfClose { name: _, attrs: _ } => {
            if n == 1 {
                let m = Manifest::empty();
                proof {
                    assert(m@ == empty_manifest_view());
                }
                return Ok(m);
            }
            return Err(ParseError::Malformed);
        },
        Tag::Open { name, attrs: _ } => name.clone(),
    };
    let mut stack: Vec<String> = Vec::new();
    stack.push(root_name);
    let mut acc = Manifest::empty();
    proof {
        assert(stack.deep_view() =~= seq![toks.deep_view()[0]->Open_name]);
        assert(acc@ == empty_manifest_view());
    }
    let mut k: usize = 1;
    loop
        invariant
            n == toks@.len(),
            1 <= k,
            stack@.len() >= 1,
            spec_walk(toks.deep_view(), k as int, stack.deep_view(), acc@) == spec_parse_doc(
                toks.deep_view(),
            ),
        decreases n + 1 - k,
    {
        if k >= n {
            return Err(ParseError::Malformed);
        }
        let ghost toks_dv = toks.deep_view();
        let ghost stack_prev = stack.deep_view();
        let ghost acc_prev = acc@;
        match &toks[k] {
            Tag::Open { name, attrs } => {
                if stack.len() == 1 && str_eq(name.as_str(), "project") {
                    match project_of_attrs(attrs) {
                        None => {
                            return Err(ParseError::Malformed);
                        },
                        Some(p) => {
                            acc.projects.push(p);
                        },
                    }
                } else if stack.len() == 1 && str_eq(name.as_str(), "include") {
                    match attr_lookup(attrs, "name") {
                        None => {
                            return Err(ParseError::Malformed);
                        },
                        Some(v) => {
                            acc.includes.push(Include { name: v.clone() });
                        },
                    }
                }
                proof {
                    assert(acc@.projects =~= match spec_collect(
                        acc_prev,
                        stack_prev.len() as int,
                        name@,
                        attrs.deep_view(),
                    ) {
                        Some(a) => a.projects,
                        None => acc@.projects,
                    });
                    assert(acc@.includes =~= match spec_collect(
                        acc_prev,
                        stack_prev.len() as int,
                        name@,
                        attrs.deep_view(),
                    ) {
                        Some(a) => a.includes,
                        None => acc@.includes,
                    });
                }
                stack.push(name.clone());
                proof {
                    assert(stack.deep_view() =~= stack_prev.push(name@));
                }
                k = k + 1;
            },
            Tag::SelfClose { name, attrs } => {
                if stack.len() == 1 && str_eq(name.as_str(), "project") {
                    match project_of_attrs(attrs) {
                        None => {
                            return Err(ParseError::Malformed);
                        },
                        Some(p) => {
                            acc.projects.push(p);
                        },
                    }
                } else if stack.len() == 1 && str_eq(name.as_str(), "include") {
                    match attr_lookup(attrs, "name") {
                        None => {
                            return Err(ParseError::Malformed);
                        },
                        Some(v) => {
                            acc.includes.push(Include { name: v.clone() });
                        },
                    }
                }
                proof {
                    assert(acc@.projects =~= match spec_collect(
                        acc_prev,
                        stack_prev.len() as int,
                        name@,
                        attrs.deep_view(),
                    ) {
                        Some(a) => a.projects,
                        None => acc@.projects,
                    });
                    assert(acc@.includes =~= match spec_collect(
                        acc_prev,
                        stack_prev.len() as int,
                        name@,
                        attrs.deep_view(),
                    ) {
                        Some(a) => a.includes,
                        None => acc@.includes,
                    });
                }
                k = k + 1;
            },
            Tag::Close { name } => {
                let top_matches = {
                    let top = &stack[stack.len() - 1];
                    str_eq(top.as_str(), name.as_str())
                };
                if !top_matches {
                    return Err(ParseError::Malformed);
                }
                if stack.len() == 1 {
                    if k == n - 1 {
                        return Ok(acc);
                    }
                    return Err(ParseError::Malformed);
                }
                stack.pop();
                proof {
                    assert(stack.deep_view() =~= stack_prev.drop_last());
                }
                k = k + 1;
            },
        }
    }
}

/// Parses a manifest document. Returns the manifest the text denotes —
/// projects and include names of the root's direct children, in document
/// order — or a [`ParseError::Malformed`] exactly when the text does not
/// follow the manifest grammar (see [`spec_parse_manifest`]).
pub fn parse_manifest_text(text: &str) -> (r: Result<Manifest, ParseError>)
    ensures
        match r {
            Ok(m) => spec_parse_manifest(text@) == Some(m@),
            Err(e) => spec_parse_manifest(text@) is None && e matches ParseError::Malformed,
        },
{
    let chars = crate::text::chars_of(text);
    match tokenize(&chars) {
        None => Err(ParseError::Malformed),
        Some(toks) => build_doc(&toks),
    }
}

} // verus!
