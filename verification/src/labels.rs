//! Readable labels and values: property keys turned into titles, setting ids
//! humanised, and JSON scalars written the way the documentation shows them.
use vstd::prelude::*;
use vstd::utf8::{encode_scalar, encode_utf8};
use crate::json::{Json, JsonV};
use crate::text::{
    chars_of, extend_chars, has_char, is_lowercase, is_numeric, is_uppercase, occurs_at, occurs_at_exec,
    replace_char, replace_char_exec, starts_with, string_from, to_uppercase, trim_end_char, trim_end_char_exec,
    unicode_is_lowercase, unicode_is_numeric, unicode_is_uppercase, unicode_to_uppercase,
};

verus! {

// ---- Splitting -----------------------------------------------------------------

/// `s` with every leading copy of the non-empty `p` removed
/// (`str::trim_start_matches` with a string pattern).
pub open spec fn trim_start_str(s: Seq<char>, p: Seq<char>) -> Seq<char>
    decreases s.len(),
{
    if p.len() > 0 && starts_with(s, p) {
        trim_start_str(s.subrange(p.len() as int, s.len() as int), p)
    } else {
        s
    }
}

/// Removes every leading copy of `p`.
pub fn trim_start_str_exec(s: &Vec<char>, p: &Vec<char>) -> (r: Vec<char>)
    ensures
        r@ == trim_start_str(s@, p@),
{
    let mut i: usize = 0;
    assert(s@.subrange(0, s@.len() as int) =~= s@);
    while p.len() > 0 && occurs_at_exec(s, p, i)
        invariant
            i <= s@.len(),
            s@.len() == s.len(),
            trim_start_str(s@, p@) == trim_start_str(s@.subrange(i as int, s@.len() as int), p@),
        decreases s@.len() - i,
    {
        let ghost rest = s@.subrange(i as int, s@.len() as int);
        assert(rest.subrange(0, p@.len() as int) =~= s@.subrange(i as int, i + p@.len()));
        assert(rest.subrange(p@.len() as int, rest.len() as int) =~= s@.subrange(i + p@.len(), s@.len() as int));
        i = i + p.len();
    }
    proof {
        let rest = s@.subrange(i as int, s@.len() as int);
        if p@.len() > 0 && starts_with(rest, p@) {
            assert(rest.subrange(0, p@.len() as int) =~= s@.subrange(i as int, i + p@.len()));
        }
    }
    let mut out: Vec<char> = Vec::new();
    let mut j: usize = i;
    while j < s.len()
        invariant
            i <= j <= s@.len(),
            out@ == s@.subrange(i as int, j as int),
        decreases s@.len() - j,
    {
        out.push(s[j]);
        j = j + 1;
        assert(out@ =~= s@.subrange(i as int, j as int));
    }
    out
}

/// What follows the last `a` or `b` in `s`; all of `s` when neither occurs.
pub open spec fn tail_after(s: Seq<char>, a: char, b: char) -> Seq<char>
    decreases s.len(),
{
    if s.len() == 0 {
        s
    } else if s.last() == a || s.last() == b {
        Seq::empty()
    } else {
        tail_after(s.drop_last(), a, b).push(s.last())
    }
}

/// What follows the last `a` or `b` in `s`.
pub fn tail_after_exec(s: &Vec<char>, a: char, b: char) -> (r: Vec<char>)
    ensures
        r@ == tail_after(s@, a, b),
{
    let mut n: usize = s.len();
    assert(s@.subrange(0, s@.len() as int) =~= s@);
    while n > 0 && s[n - 1] != a && s[n - 1] != b
        invariant
            n <= s@.len(),
            tail_after(s@, a, b) == tail_after(s@.subrange(0, n as int), a, b) + s@.subrange(n as int, s@.len() as int),
        decreases n,
    {
        assert(s@.subrange(0, n as int).drop_last() =~= s@.subrange(0, n - 1));
        assert(tail_after(s@.subrange(0, n - 1), a, b).push(s@[n - 1]) + s@.subrange(n as int, s@.len() as int)
            =~= tail_after(s@.subrange(0, n - 1), a, b) + s@.subrange(n - 1, s@.len() as int));
        n = n - 1;
    }
    assert(tail_after(s@.subrange(0, n as int), a, b) =~= Seq::<char>::empty());
    let mut out: Vec<char> = Vec::new();
    let mut j: usize = n;
    while j < s.len()
        invariant
            n <= j <= s@.len(),
            out@ == s@.subrange(n as int, j as int),
        decreases s@.len() - j,
    {
        out.push(s[j]);
        j = j + 1;
        assert(out@ =~= s@.subrange(n as int, j as int));
    }
    assert(out@ =~= tail_after(s@, a, b));
    out
}

/// The start of the last occurrence of the non-empty `p` in `s`.
pub open spec fn is_last_occurrence(s: Seq<char>, p: Seq<char>, i: int) -> bool {
    occurs_at(s, p, i) && forall|j: int| i < j ==> !occurs_at(s, p, j)
}

/// What follows the last occurrence of `p` in `s` (`s.rsplit(p).next()`);
/// all of `s` when `p` does not occur.
pub open spec fn after_last_occurrence(s: Seq<char>, p: Seq<char>) -> Seq<char> {
    if exists|i: int| is_last_occurrence(s, p, i) {
        let i = choose|i: int| is_last_occurrence(s, p, i);
        s.subrange(i + p.len(), s.len() as int)
    } else {
        s
    }
}

/// What follows the last occurrence of the non-empty `p` in `s`.
pub fn after_last_occurrence_exec(s: &Vec<char>, p: &Vec<char>) -> (r: Vec<char>)
    requires
        p@.len() > 0,
    ensures
        r@ == after_last_occurrence(s@, p@),
{
    let mut start: usize = 0;
    let mut found = false;
    if p.len() <= s.len() {
        let mut i: usize = s.len() - p.len() + 1;
        while i > 0 && !found
            invariant
                p@.len() <= s@.len(),
                i <= s@.len() - p@.len() + 1,
                !found ==> forall|j: int| i <= j ==> !occurs_at(s@, p@, j),
                found ==> occurs_at(s@, p@, start as int) && forall|j: int| start < j ==> !occurs_at(s@, p@, j),
            decreases i, if found { 0nat } else { 1nat },
        {
            if occurs_at_exec(s, p, i - 1) {
                start = i - 1;
                found = true;
            } else {
                i = i - 1;
            }
        }
    } else {
        assert forall|j: int| !occurs_at(s@, p@, j) by {}
    }
    if found {
        proof {
            assert(is_last_occurrence(s@, p@, start as int));
            let c = choose|c: int| is_last_occurrence(s@, p@, c);
            assert(c == start);
        }
        let mut out: Vec<char> = Vec::new();
        let mut j: usize = start + p.len();
        while j < s.len()
            invariant
                start + p@.len() <= j <= s@.len(),
                out@ == s@.subrange(start + p@.len(), j as int),
            decreases s@.len() - j,
        {
            out.push(s[j]);
            j = j + 1;
            assert(out@ =~= s@.subrange(start + p@.len(), j as int));
        }
        out
    } else {
        let mut out: Vec<char> = Vec::new();
        extend_chars(&mut out, s);
        assert(out@ =~= s@);
        out
    }
}

/// What follows the first `c` in `s`, if `c` occurs (`str::split_once` with a char).
pub open spec fn after_first_char(s: Seq<char>, c: char) -> Option<Seq<char>>
    decreases s.len(),
{
    if s.len() == 0 {
        None
    } else if s[0] == c {
        Some(s.drop_first())
    } else {
        after_first_char(s.drop_first(), c)
    }
}

/// What follows the first `c` in `s`.
pub fn after_first_char_exec(s: &Vec<char>, c: char) -> (r: Option<Vec<char>>)
    ensures
        r matches Some(t) ==> after_first_char(s@, c) == Some(t@),
        r is None ==> after_first_char(s@, c) is None,
{
    let mut i: usize = 0;
    assert(s@.subrange(0, s@.len() as int) =~= s@);
    while i < s.len() && s[i] != c
        invariant
            i <= s@.len(),
            after_first_char(s@, c) == after_first_char(s@.subrange(i as int, s@.len() as int), c),
        decreases s@.len() - i,
    {
        assert(s@.subrange(i as int, s@.len() as int).drop_first() =~= s@.subrange(i + 1, s@.len() as int));
        i = i + 1;
    }
    if i == s.len() {
        None
    } else {
        assert(s@.subrange(i as int, s@.len() as int).drop_first() =~= s@.subrange(i + 1, s@.len() as int));
        let mut out: Vec<char> = Vec::new();
        let mut j: usize = i + 1;
        while j < s.len()
            invariant
                i + 1 <= j <= s@.len(),
                out@ == s@.subrange(i + 1, j as int),
            decreases s@.len() - j,
        {
            out.push(s[j]);
            j = j + 1;
            assert(out@ =~= s@.subrange(i + 1, j as int));
        }
        Some(out)
    }
}

/// The parts joined with `sep` between consecutive ones (`[String]::join`).
pub open spec fn join(parts: Seq<Seq<char>>, sep: Seq<char>) -> Seq<char>
    decreases parts.len(),
{
    if parts.len() == 0 {
        Seq::empty()
    } else if parts.len() == 1 {
        parts[0]
    } else {
        join(parts.drop_last(), sep) + sep + parts.last()
    }
}

/// The character sequences of a vector of parts.
pub open spec fn parts_view(parts: Seq<Vec<char>>) -> Seq<Seq<char>> {
    parts.map_values(|p: Vec<char>| p@)
}

/// Joins the parts with `sep` between consecutive ones.
pub fn join_exec(parts: &Vec<Vec<char>>, sep: &Vec<char>) -> (r: Vec<char>)
    ensures
        r@ == join(parts_view(parts@), sep@),
{
    let ghost pv = parts_view(parts@);
    let mut out: Vec<char> = Vec::new();
    let mut i: usize = 0;
    while i < parts.len()
        invariant
            i <= parts@.len(),
            pv == parts_view(parts@),
            out@ == join(pv.subrange(0, i as int), sep@),
        decreases parts@.len() - i,
    {
        assert(pv.subrange(0, i + 1).drop_last() =~= pv.subrange(0, i as int));
        if i > 0 {
            extend_chars(&mut out, sep);
        }
        extend_chars(&mut out, &parts[i]);
        i = i + 1;
        assert(out@ =~= join(pv.subrange(0, i as int), sep@));
    }
    assert(pv.subrange(0, pv.len() as int) =~= pv);
    out
}

// ---- Property keys ---------------------------------------------------------------

/// The label built from the first `s.len()` characters of a key, and whether
/// the last of them was a lower-case letter or a digit.
pub open spec fn format_chars(s: Seq<char>) -> (Seq<char>, bool)
    decreases s.len(),
{
    if s.len() == 0 {
        (Seq::empty(), false)
    } else {
        let (out, prev_lower) = format_chars(s.drop_last());
        let c = s.last();
        if c == '_' || c == '-' {
            (out.push(' '), false)
        } else {
            let spaced = if unicode_is_uppercase(c) && prev_lower { out.push(' ') } else { out };
            let written = if s.len() == 1 { spaced + unicode_to_uppercase(c) } else { spaced.push(c) };
            (written, unicode_is_lowercase(c) || unicode_is_numeric(c))
        }
    }
}

/// A camelCase / snake-case property key as a readable label: leading
/// `@odata.` removed, `_` and `-` turned into spaces, a space before a capital
/// that follows a small letter or digit, and the first character capitalised.
pub open spec fn format_key_spec(key: Seq<char>) -> Seq<char> {
    format_chars(trim_start_str(key, "@odata."@)).0
}

/// Format a camelCase / snake-case property key into a readable label.
pub fn format_key(key: &str) -> (r: String)
    ensures
        r@ == format_key_spec(key@),
{
    let k = chars_of(key);
    let v = format_key_chars(&k);
    string_from(&v)
}

/// `format_key` on a character sequence.
pub fn format_key_chars(key: &Vec<char>) -> (r: Vec<char>)
    ensures
        r@ == format_key_spec(key@),
{
    let prefix = chars_of("@odata.");
    let k = trim_start_str_exec(key, &prefix);
    let mut out: Vec<char> = Vec::new();
    let mut prev_lower = false;
    let mut i: usize = 0;
    while i < k.len()
        invariant
            i <= k@.len(),
            format_chars(k@.subrange(0, i as int)) == (out@, prev_lower),
        decreases k@.len() - i,
    {
        let c = k[i];
        assert(k@.subrange(0, i + 1).drop_last() =~= k@.subrange(0, i as int));
        if c == '_' || c == '-' {
            out.push(' ');
            prev_lower = false;
        } else {
            if is_uppercase(c) && prev_lower {
                out.push(' ');
            }
            if i == 0 {
                let up = to_uppercase(c);
                extend_chars(&mut out, &up);
            } else {
                out.push(c);
            }
            prev_lower = is_lowercase(c) || is_numeric(c);
        }
        i = i + 1;
    }
    assert(k@.subrange(0, k@.len() as int) =~= k@);
    out
}

/// Humanise the last `_`- or `.`-separated segment of a setting id.
pub open spec fn pretty_setting_id(id: Seq<char>) -> Seq<char> {
    format_key_spec(tail_after(id, '_', '.'))
}

/// Fallback when a definition has no display name: humanise the last id segment.
pub fn pretty_setting_id_exec(id: &Vec<char>) -> (r: Vec<char>)
    ensures
        r@ == pretty_setting_id(id@),
{
    let tail = tail_after_exec(id, '_', '.');
    format_key_chars(&tail)
}

/// Humanise an Endpoint Security intent `definitionId`: the part after the
/// last `--`, then after its first `_`.
pub open spec fn intent_setting_name(definition_id: Seq<char>) -> Seq<char> {
    let tail = after_last_occurrence(definition_id, "--"@);
    let setting = match after_first_char(tail, '_') {
        Some(s) => s,
        None => tail,
    };
    format_key_spec(setting)
}

/// The readable name of an intent setting.
pub fn intent_setting_name_exec(definition_id: &Vec<char>) -> (r: Vec<char>)
    ensures
        r@ == intent_setting_name(definition_id@),
{
    let sep = chars_of("--");
    proof {
        reveal_strlit("--");
    }
    let tail = after_last_occurrence_exec(definition_id, &sep);
    let setting = match after_first_char_exec(&tail, '_') {
        Some(s) => s,
        None => tail,
    };
    format_key_chars(&setting)
}

// ---- Scalar values -------------------------------------------------------------------

/// The number of bytes of `s` in UTF-8.
pub open spec fn utf8_len(s: Seq<char>) -> nat {
    encode_utf8(s).len()
}

/// The number of UTF-8 bytes of one character.
pub open spec fn utf8_width(c: char) -> nat {
    encode_scalar(c as u32).len()
}

/// Adding a character adds its width to the byte length.
pub proof fn lemma_utf8_len_push(s: Seq<char>, c: char)
    ensures
        utf8_len(s.push(c)) == utf8_len(s) + utf8_width(c),
    decreases s.len(),
{
    if s.len() > 0 {
        assert(s.push(c).drop_first() =~= s.drop_first().push(c));
        lemma_utf8_len_push(s.drop_first(), c);
        assert(encode_utf8(s.push(c)) == encode_scalar(s[0] as u32) + encode_utf8(s.drop_first().push(c)));
        assert(encode_utf8(s) == encode_scalar(s[0] as u32) + encode_utf8(s.drop_first()));
    } else {
        assert(seq![c].drop_first() =~= Seq::<char>::empty());
        assert(s.push(c) =~= seq![c]);
        assert(encode_utf8(seq![c]) == encode_scalar(c as u32) + encode_utf8(Seq::<char>::empty()));
        assert(encode_utf8(Seq::<char>::empty()) =~= Seq::<u8>::empty());
    }
}

/// The number of UTF-8 bytes of `c`.
fn utf8_width_exec(c: char) -> (w: u64)
    ensures
        w == utf8_width(c),
{
    let v = c as u32;
    if v <= 0x7f {
        1
    } else if v <= 0x7ff {
        2
    } else if v <= 0xffff {
        3
    } else {
        4
    }
}

/// The UTF-8 byte length of `s`, or `cap` when it is longer.
fn utf8_len_capped(s: &Vec<char>, cap: u64) -> (n: u64)
    ensures
        n == if utf8_len(s@) < cap { utf8_len(s@) } else { cap as nat },
{
    let mut n: u64 = 0;
    let mut i: usize = 0;
    assert(s@.subrange(0, 0) =~= Seq::<char>::empty());
    while i < s.len()
        invariant
            i <= s@.len(),
            n == if utf8_len(s@.subrange(0, i as int)) < cap { utf8_len(s@.subrange(0, i as int)) } else { cap as nat },
        decreases s@.len() - i,
    {
        let w = utf8_width_exec(s[i]);
        proof {
            assert(s@.subrange(0, i + 1) =~= s@.subrange(0, i as int).push(s@[i as int]));
            lemma_utf8_len_push(s@.subrange(0, i as int), s@[i as int]);
        }
        if n < cap {
            n = if cap - n < w { cap } else { n + w };
        }
        i = i + 1;
    }
    assert(s@.subrange(0, s@.len() as int) =~= s@);
    n
}

/// A string shown as a timestamp: it ends in `Z`, and before that `Z` it holds
/// a `T` and at least 19 bytes.
pub open spec fn looks_like_timestamp(s: Seq<char>) -> bool {
    s.len() > 0 && s.last() == 'Z' && s.drop_last().contains('T') && utf8_len(s.drop_last()) >= 19
}

/// A value as the documentation shows it: `—` for null, `Enabled` /
/// `Disabled` for booleans, timestamps with the `T` replaced by a space and the
/// trailing `Z` dropped, numbers and other strings as they are, and arrays and
/// objects as compact JSON.
pub open spec fn scalar_text(v: JsonV) -> Seq<char> {
    match v {
        JsonV::Null => seq!['\u{2014}'],
        JsonV::Bool(b) => if b { "Enabled"@ } else { "Disabled"@ },
        JsonV::Str(s) => {
            if looks_like_timestamp(s) {
                trim_end_char(replace_char(s, 'T', seq![' ']), 'Z')
            } else {
                s
            }
        },
        JsonV::Number(n) => n,
        _ => v.text(),
    }
}

/// Renders one value as the documentation shows it.
pub fn scalar_to_string(v: &Json) -> (r: Vec<char>)
    ensures
        r@ == scalar_text(v@),
{
    match v {
        Json::Null => {
            let mut r: Vec<char> = Vec::new();
            r.push('\u{2014}');
            assert(r@ =~= seq!['\u{2014}']);
            r
        },
        Json::Bool(b) => {
            if *b {
                chars_of("Enabled")
            } else {
                chars_of("Disabled")
            }
        },
        Json::Str(s) => {
            let c = chars_of(s.as_str());
            if c.len() > 0 && c[c.len() - 1] == 'Z' {
                let mut dt: Vec<char> = Vec::new();
                let mut i: usize = 0;
                while i < c.len() - 1
                    invariant
                        c@.len() > 0,
                        i + 1 <= c@.len(),
                        dt@ == c@.subrange(0, i as int),
                    decreases c@.len() - i,
                {
                    dt.push(c[i]);
                    i = i + 1;
                    assert(dt@ =~= c@.subrange(0, i as int));
                }
                assert(dt@ =~= c@.drop_last());
                let bytes = utf8_len_capped(&dt, 19);
                if has_char(&dt, 'T') && bytes >= 19 {
                    let space = chars_of(" ");
                    proof {
                        reveal_strlit(" ");
                        assert(space@ =~= seq![' ']);
                        assert(looks_like_timestamp(s@));
                    }
                    let replaced = replace_char_exec(&c, 'T', &space);
                    return trim_end_char_exec(&replaced, 'Z');
                }
            }
            c
        },
        Json::Number(n) => chars_of(n.as_str()),
        _ => {
            let mut out: Vec<char> = Vec::new();
            v.write_text(&mut out);
            assert(out@ =~= v@.text());
            out
        },
    }
}

} // verus!
