//! Character and string utilities shared by the manifest parser, the project
//! selector and the history classifier: ASCII case folding, substring search,
//! line and token splitting.

use vstd::prelude::*;

verus! {

// ---------------------------------------------------------------------------
// ASCII case folding
// ---------------------------------------------------------------------------
/// ASCII case folding of one character: `'A'..='Z'` maps to `'a'..='z'`,
/// every other character is unchanged.
pub open spec fn ascii_lower_char(c: char) -> char {
    if 65 <= c as u32 && c as u32 <= 90 {
        ((c as u32) + 32) as char
    } else {
        c
    }
}

/// ASCII case folding of a character sequence, character by character.
pub open spec fn ascii_lower_seq(s: Seq<char>) -> Seq<char> {
    s.map(|_i: int, c: char| ascii_lower_char(c))
}

/// ASCII-lowercases a string: uppercase ASCII letters are folded, all other
/// characters (including non-ASCII ones) are kept as they are.
pub fn to_ascii_lower(s: &str) -> (r: String)
    ensures
        r@ == ascii_lower_seq(s@),
{
    let n = s.unicode_len();
    let mut r = String::new();
    let mut i: usize = 0;
    while i < n
        invariant
            n == s@.len(),
            i <= n,
            r@ == ascii_lower_seq(s@.subrange(0, i as int)),
        decreases n - i,
    {
        let c = s.get_char(i);
        let folded: char = if 65 <= c as u32 && c as u32 <= 90 {
            ((c as u8) + 32) as char
        } else {
            c
        };
        push_char(&mut r, folded);
        proof {
            assert(ascii_lower_seq(s@.subrange(0, (i + 1) as int)) =~= ascii_lower_seq(
                s@.subrange(0, i as int),
            ).push(ascii_lower_char(s@[i as int])));
        }
        i = i + 1;
    }
    proof {
        assert(s@.subrange(0, n as int) =~= s@);
    }
    r
}

/// The characters of a string, as a vector.
pub fn chars_of(s: &str) -> (v: Vec<char>)
    ensures
        v@ == s@,
{
    let n = s.unicode_len();
    let mut v: Vec<char> = Vec::new();
    let mut i: usize = 0;
    while i < n
        invariant
            n == s@.len(),
            i <= n,
            v@ == s@.subrange(0, i as int),
        decreases n - i,
    {
        v.push(s.get_char(i));
        proof {
            assert(s@.subrange(0, (i + 1) as int) =~= s@.subrange(0, i as int).push(
                s@[i as int],
            ));
        }
        i = i + 1;
    }
    proof {
        assert(s@.subrange(0, n as int) =~= s@);
    }
    v
}

// ---------------------------------------------------------------------------
// Trusted string primitives
// ---------------------------------------------------------------------------
/// Relies on `String::push`: appends exactly the given character.
#[verifier::external_body]
pub(crate) fn push_char(s: &mut String, c: char)
    ensures
        final(s)@ == old(s)@.push(c),
{
    s.push(c)
}

/// `needle` occurs as a contiguous run of characters inside `hay`.
pub open spec fn seq_contains_sub(hay: Seq<char>, needle: Seq<char>) -> bool {
    exists|i: int|
        0 <= i && i + needle.len() <= hay.len() && #[trigger] hay.subrange(i, i + needle.len())
            == needle
}

/// Relies on `str::contains` with a string pattern: true exactly when the
/// needle occurs as a contiguous substring of the haystack.
#[verifier::external_body]
pub(crate) fn str_contains(hay: &str, needle: &str) -> (r: bool)
    ensures
        r == seq_contains_sub(hay@, needle@),
{
    hay.contains(needle)
}

/// The Unicode lowercase folding of a character sequence; its value on given
/// characters is whatever `str::to_lowercase` returns for them.
pub uninterp spec fn lower_of(s: Seq<char>) -> Seq<char>;

/// Relies on `str::to_lowercase`: the result depends on the characters alone,
/// and an empty string stays empty.
#[verifier::external_body]
pub(crate) fn to_lowercase(s: &str) -> (r: String)
    ensures
        r@ == lower_of(s@),
        s@.len() == 0 ==> r@.len() == 0,
{
    s.to_lowercase()
}

// ---------------------------------------------------------------------------
// Splitting
// ---------------------------------------------------------------------------
/// Group separators in a manifest `groups` attribute: comma or space.
pub open spec fn is_group_sep(c: char) -> bool {
    c == ',' || c == ' '
}

/// Splits a sequence at every separator character; empty tokens are kept, so
/// the result always holds at least one token and splitting the empty
/// sequence yields one empty token.
pub open spec fn split_by_seps(s: Seq<char>) -> Seq<Seq<char>>
    decreases s.len(),
{
    if s.len() == 0 {
        seq![Seq::<char>::empty()]
    } else if is_group_sep(s[0]) {
        seq![Seq::<char>::empty()] + split_by_seps(s.skip(1))
    } else {
        let rest = split_by_seps(s.skip(1));
        rest.update(0, seq![s[0]] + rest[0])
    }
}

/// Splits a string on commas and spaces; empty tokens are kept.
pub fn split_groups(s: &str) -> (v: Vec<String>)
    ensures
        v.deep_view() == split_by_seps(s@),
{
    let n = s.unicode_len();
    let mut v: Vec<String> = Vec::new();
    v.push(String::new());
    proof {
        assert(s@.skip(n as int) =~= Seq::<char>::empty());
        assert(v.deep_view() =~~= split_by_seps(s@.skip(n as int)));
    }
    let mut i: usize = n;
    while i > 0
        invariant
            n == s@.len(),
            i <= n,
            v.deep_view() == split_by_seps(s@.skip(i as int)),
            v.len() >= 1,
        decreases i,
    {
        let ghost prev = v.deep_view();
        let c = s.get_char(i - 1);
        proof {
            assert(s@.skip((i - 1) as int)[0] == s@[(i - 1) as int]);
            assert(s@.skip((i - 1) as int).skip(1) =~= s@.skip(i as int));
        }
        if c == ',' || c == ' ' {
            v.insert(0, String::new());
            proof {
                assert(v.deep_view() =~~= seq![Seq::<char>::empty()] + prev);
            }
        } else {
            let head = v.remove(0);
            let mut grown = String::new();
            push_char(&mut grown, c);
            grown.append(head.as_str());
            v.insert(0, grown);
            proof {
                assert(v.deep_view() =~~= prev.update(0, seq![s@[(i - 1) as int]] + prev[0]));
            }
        }
        i = i - 1;
    }
    proof {
        assert(s@.skip(0) =~= s@);
    }
    v
}

/// Line splitting as a buffered reader yields lines: tokens end at `"\n"` or
/// `"\r\n"`, the terminator is dropped, a final unterminated token is kept,
/// and a trailing terminator does not create an extra empty token.
pub open spec fn split_lines_spec(s: Seq<char>) -> Seq<Seq<char>>
    decreases s.len(),
{
    if s.len() == 0 {
        Seq::<Seq<char>>::empty()
    } else if s[0] == '\n' {
        seq![Seq::<char>::empty()] + split_lines_spec(s.skip(1))
    } else if s[0] == '\r' && s.len() >= 2 && s[1] == '\n' {
        seq![Seq::<char>::empty()] + split_lines_spec(s.skip(2))
    } else {
        let rest = split_lines_spec(s.skip(1));
        if rest.len() == 0 {
            seq![seq![s[0]]]
        } else {
            rest.update(0, seq![s[0]] + rest[0])
        }
    }
}

/// Splits a text into its lines (see [`split_lines_spec`]).
pub fn split_lines(s: &str) -> (v: Vec<String>)
    ensures
        v.deep_view() == split_lines_spec(s@),
{
    let n = s.unicode_len();
    let mut v: Vec<String> = Vec::new();
    proof {
        assert(s@.skip(n as int) =~= Seq::<char>::empty());
        assert(v.deep_view() =~~= split_lines_spec(s@.skip(n as int)));
    }
    let mut i: usize = n;
    while i > 0
        invariant
            n == s@.len(),
            i <= n,
            v.deep_view() == split_lines_spec(s@.skip(i as int)),
        decreases i,
    {
        let ghost prev = v.deep_view();
        let c = s.get_char(i - 1);
        proof {
            assert(s@.skip((i - 1) as int)[0] == s@[(i - 1) as int]);
            assert(s@.skip((i - 1) as int).skip(1) =~= s@.skip(i as int));
        }
        if c == '\n' {
            v.insert(0, String::new());
            proof {
                assert(v.deep_view() =~~= seq![Seq::<char>::empty()] + prev);
            }
        } else if c == '\r' && i < n && s.get_char(i) == '\n' {
            // part of a "\r\n" terminator already handled at the '\n'
            proof {
                assert(s@.skip((i - 1) as int)[1] == s@[i as int]);
                assert(s@.skip((i - 1) as int).skip(2) =~= s@.skip((i + 1) as int));
                // the '\n' step already produced the empty token this
                // terminator ends, so the collected lines are unchanged
                assert(s@.skip(i as int)[0] == s@[i as int]);
                assert(s@.skip(i as int).skip(1) =~= s@.skip((i + 1) as int));
            }
        } else {
            if v.len() == 0 {
                let mut tok = String::new();
                push_char(&mut tok, c);
                v.push(tok);
                proof {
                    assert(v.deep_view() =~~= seq![seq![s@[(i - 1) as int]]]);
                }
            } else {
                let head = v.remove(0);
                let mut grown = String::new();
                push_char(&mut grown, c);
                grown.append(head.as_str());
                v.insert(0, grown);
                proof {
                    assert(v.deep_view() =~~= prev.update(0, seq![s@[(i - 1) as int]] + prev[0]));
                }
            }
        }
        i = i - 1;
    }
    proof {
        assert(s@.skip(0) =~= s@);
    }
    v
}

// ---------------------------------------------------------------------------
// Paths
// ---------------------------------------------------------------------------
/// Joining a relative component onto a base folder: a `/` separator is added
/// unless the base is empty or already ends with one.
pub open spec fn join_path(base: Seq<char>, component: Seq<char>) -> Seq<char> {
    if base.len() == 0 {
        component
    } else if base[base.len() - 1] == '/' {
        base + component
    } else {
        base + seq!['/'] + component
    }
}

/// Joins a relative component onto a base folder (see [`join_path`]).
pub fn path_join(base: &str, component: &str) -> (r: String)
    ensures
        r@ == join_path(base@, component@),
{
    let mut r = base.to_owned();
    if base.unicode_len() > 0 && base.get_char(base.unicode_len() - 1) != '/' {
        push_char(&mut r, '/');
    }
    r.append(component);
    proof {
        if base@.len() > 0 && base@[base@.len() - 1] != '/' {
            assert(r@ =~= base@ + seq!['/'] + component@);
        }
    }
    r
}

/// The last non-empty `/`-separated segment of a path, if the path has one.
pub open spec fn last_segment(s: Seq<char>) -> Option<Seq<char>>
    decreases s.len(),
{
    if s.len() == 0 {
        None
    } else if s[s.len() - 1] == '/' {
        last_segment(s.drop_last())
    } else {
        let cut = cut_last_segment(s);
        Some(s.subrange(cut, s.len() as int))
    }
}

/// The index right after the last `/` of `s`, or 0 if `s` has no `/`.
pub open spec fn cut_last_segment(s: Seq<char>) -> int
    decreases s.len(),
{
    if s.len() == 0 {
        0
    } else if s[s.len() - 1] == '/' {
        s.len() as int
    } else {
        cut_last_segment(s.drop_last())
    }
}

pub proof fn lemma_cut_last_segment_bounds(s: Seq<char>)
    ensures
        0 <= cut_last_segment(s) <= s.len(),
    decreases s.len(),
{
    if s.len() == 0 {
    } else if s[s.len() - 1] == '/' {
    } else {
        lemma_cut_last_segment_bounds(s.drop_last());
    }
}

/// The last non-empty `/`-separated segment of a path, or `None` when the
/// path is empty or all separators.
pub fn path_last_segment(s: &str) -> (r: Option<String>)
    ensures
        match r {
            Some(seg) => last_segment(s@) == Some(seg@),
            None => last_segment(s@) is None,
        },
{
    let n = s.unicode_len();
    proof {
        assert(s@.subrange(0, n as int) =~= s@);
    }
    // end of the trailing run of '/' characters, exclusive
    let mut end: usize = n;
    while end > 0 && s.get_char(end - 1) == '/'
        invariant
            n == s@.len(),
            end <= n,
            last_segment(s@) == last_segment(s@.subrange(0, end as int)),
        decreases end,
    {
        proof {
            assert(s@.subrange(0, end as int).drop_last() =~= s@.subrange(0, (end - 1) as int));
        }
        end = end - 1;
    }
    if end == 0 {
        proof {
            assert(s@.subrange(0, 0) =~= Seq::<char>::empty());
        }
        return None;
    }
    // scan left from `end` to the separator before the last segment
    let mut start: usize = end;
    while start > 0 && s.get_char(start - 1) != '/'
        invariant
            n == s@.len(),
            start <= end <= n,
            end > 0,
            s@[end - 1] != '/',
            forall|k: int| start <= k < end ==> s@[k] != '/',
        decreases start,
    {
        start = start - 1;
    }
    proof {
        lemma_cut_last_segment_prefix(s@.subrange(0, end as int), start as int);
        assert(s@.subrange(0, end as int).subrange(start as int, end as int) =~= s@.subrange(
            start as int,
            end as int,
        ));
    }
    let seg = s.substring_char(start, end);
    Some(seg.to_owned())
}

/// If every character of `s` from `start` on differs from `/`, and either
/// `start` is 0 or a `/` stands right before it, then the last segment of a
/// non-empty `s` not ending in `/` begins at `start`.
proof fn lemma_cut_last_segment_prefix(s: Seq<char>, start: int)
    requires
        0 <= start < s.len(),
        s[s.len() - 1] != '/',
        forall|k: int| start <= k < s.len() ==> s[k] != '/',
        start == 0 || s[start - 1] == '/',
    ensures
        cut_last_segment(s) == start,
    decreases s.len(),
{
    if s.len() - 1 == start {
        if start == 0 {
            assert(cut_last_segment(s) == cut_last_segment(s.drop_last()));
            assert(s.drop_last().len() == 0);
        } else {
            assert(s.drop_last()[start - 1] == '/');
            assert(cut_last_segment(s) == cut_last_segment(s.drop_last()));
            assert(cut_last_segment(s.drop_last()) == s.drop_last().len());
        }
    } else {
        lemma_cut_last_segment_prefix(s.drop_last(), start);
    }
}

// ---------------------------------------------------------------------------
// Decimal formatting
// ---------------------------------------------------------------------------
/// The character of one decimal digit.
pub open spec fn digit_char(d: nat) -> char
    recommends
        d < 10,
{
    (48 + d) as char
}

/// The decimal digits of a number, most significant first, no leading zeros
/// (a single `0` for zero).
pub open spec fn dec_digits(n: nat) -> Seq<char>
    decreases n,
{
    if n < 10 {
        seq![digit_char(n)]
    } else {
        dec_digits(n / 10).push(digit_char(n % 10))
    }
}

/// `n` copies of one character.
pub open spec fn repeat_char(c: char, n: nat) -> Seq<char> {
    Seq::new(n, |_i: int| c)
}

/// A number in decimal, zero-padded to at least `width` characters (sign
/// included in the width): a `-` for negative values, a `+` for non-negative
/// ones when `always_sign` is set.
pub open spec fn fmt_int_spec(v: int, width: nat, always_sign: bool) -> Seq<char> {
    let sign: Seq<char> = if v < 0 {
        seq!['-']
    } else if always_sign {
        seq!['+']
    } else {
        Seq::<char>::empty()
    };
    let digits = dec_digits(if v < 0 {
        (-v) as nat
    } else {
        v as nat
    });
    let pad: nat = if sign.len() + digits.len() >= width {
        0
    } else {
        (width - sign.len() - digits.len()) as nat
    };
    sign + repeat_char('0', pad) + digits
}

/// The decimal digits of a number (see [`dec_digits`]).
pub fn format_u64(n: u64) -> (r: String)
    ensures
        r@ == dec_digits(n as nat),
    decreases n,
{
    if n < 10 {
        let mut r = String::new();
        push_char(&mut r, ((48 + n) as u8) as char);
        r
    } else {
        let mut r = format_u64(n / 10);
        push_char(&mut r, ((48 + n % 10) as u8) as char);
        r
    }
}

/// Formats a number in decimal, zero-padded (see [`fmt_int_spec`]).
pub fn format_int(v: i64, width: usize, always_sign: bool) -> (r: String)
    requires
        v != i64::MIN,
    ensures
        r@ == fmt_int_spec(v as int, width as nat, always_sign),
{
    let mut r = String::new();
    let sign_len: usize = if v < 0 || always_sign {
        1
    } else {
        0
    };
    if v < 0 {
        push_char(&mut r, '-');
    } else if always_sign {
        push_char(&mut r, '+');
    }
    let magnitude: u64 = if v < 0 {
        (-v) as u64
    } else {
        v as u64
    };
    let digits = format_u64(magnitude);
    let dig_len = digits.unicode_len();
    let mut pad: usize = if width > sign_len && width - sign_len > dig_len {
        width - sign_len - dig_len
    } else {
        0
    };
    let ghost pad0 = pad;
    let ghost before_pad = r@;
    while pad > 0
        invariant
            pad <= pad0,
            r@ == before_pad + repeat_char('0', (pad0 - pad) as nat),
        decreases pad,
    {
        push_char(&mut r, '0');
        proof {
            assert(before_pad + repeat_char('0', (pad0 - pad + 1) as nat) =~= (before_pad
                + repeat_char('0', (pad0 - pad) as nat)).push('0'));
        }
        pad = pad - 1;
    }
    r.append(digits.as_str());
    proof {
        assert(r@ =~= fmt_int_spec(v as int, width as nat, always_sign));
    }
    r
}

} // verus!
