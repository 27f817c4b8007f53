//! Character-level text helpers shared by the viewer, the diff reader and
//! the tree: splitting into lines, whitespace, tokens, decimal numbers and
//! string building.

use vstd::prelude::*;

verus! {

// ---------------------------------------------------------------------------
// String building
// ---------------------------------------------------------------------------

/// Appends one character to a string (std's `String::push`).
#[verifier::external_body]
pub(crate) fn push_char(s: &mut String, c: char)
    ensures
        final(s)@ == old(s)@.push(c),
{
    s.push(c);
}

/// The characters of a string slice, in order.
pub fn chars_of(s: &str) -> (r: Vec<char>)
    ensures
        r@ == s@,
{
    let mut r: Vec<char> = Vec::new();
    for c in it: s.chars()
        invariant
            r@ == it.seq().take(it.index() as int),
    {
        r.push(c);
    }
    r
}

/// A string holding exactly the given characters.
pub fn string_of(cs: &Vec<char>) -> (r: String)
    ensures
        r@ == cs@,
{
    let mut r = String::new();
    let mut i: usize = 0;
    while i < cs.len()
        invariant
            i <= cs.len(),
            r@ == cs@.take(i as int),
        decreases cs.len() - i,
    {
        push_char(&mut r, cs[i]);
        i += 1;
        assert(r@ =~= cs@.take(i as int));
    }
    assert(cs@.take(cs@.len() as int) =~= cs@);
    r
}

/// Appends the characters of `cs` to `s`.
pub fn push_chars(s: &mut String, cs: &Vec<char>)
    ensures
        final(s)@ == old(s)@ + cs@,
{
    let ghost s0 = s@;
    let mut i: usize = 0;
    while i < cs.len()
        invariant
            i <= cs.len(),
            s@ == s0 + cs@.take(i as int),
        decreases cs.len() - i,
    {
        push_char(s, cs[i]);
        i += 1;
        assert(s@ =~= s0 + cs@.take(i as int));
    }
    assert(cs@.take(cs@.len() as int) =~= cs@);
}

/// Whether `s` begins with `p`.
pub open spec fn has_prefix(s: Seq<char>, p: Seq<char>) -> bool {
    p.len() <= s.len() && s.take(p.len() as int) =~= p
}

/// Whether the characters `s` begin with the characters `p`.
pub fn starts_with(s: &Vec<char>, p: &Vec<char>) -> (r: bool)
    ensures
        r == has_prefix(s@, p@),
{
    if p.len() > s.len() {
        return false;
    }
    let mut i: usize = 0;
    while i < p.len()
        invariant
            p.len() <= s.len(),
            i <= p.len(),
            forall|k: int| 0 <= k < i ==> s@[k] == p@[k],
        decreases p.len() - i,
    {
        if s[i] != p[i] {
            return false;
        }
        i += 1;
    }
    true
}

/// The character sequences held by a sequence of character vectors.
pub open spec fn views(v: Seq<Vec<char>>) -> Seq<Seq<char>> {
    v.map_values(|x: Vec<char>| x@)
}

// ---------------------------------------------------------------------------
// Lines
// ---------------------------------------------------------------------------

/// Index of the first line feed at or after `i`, or the length if there is none.
pub open spec fn newline_at(t: Seq<char>, i: int) -> int
    decreases t.len() - i,
{
    if i >= t.len() {
        t.len() as int
    } else if t[i] == '\n' {
        i
    } else {
        newline_at(t, i + 1)
    }
}

/// A line without the carriage return that ends it, if one does.
pub open spec fn strip_cr(l: Seq<char>) -> Seq<char> {
    if l.len() > 0 && l.last() == '\r' {
        l.drop_last()
    } else {
        l
    }
}

/// The lines of a text as std's `str::lines` yields them: split at each line
/// feed, a carriage return just before the line feed removed, no final empty
/// line after a trailing line feed.
pub open spec fn text_lines(t: Seq<char>) -> Seq<Seq<char>>
    decreases t.len(),
{
    if t.len() == 0 {
        Seq::empty()
    } else {
        let j = newline_at(t, 0);
        if j >= t.len() || j < 0 {
            seq![t]
        } else {
            seq![strip_cr(t.take(j))] + text_lines(t.skip(j + 1))
        }
    }
}

proof fn lemma_newline_at_found(t: Seq<char>, k: int, i: int)
    requires
        0 <= k <= i <= t.len(),
        forall|m: int| k <= m < i ==> t[m] != '\n',
        i == t.len() || t[i] == '\n',
    ensures
        newline_at(t, k) == i,
    decreases i - k,
{
    if k < i {
        lemma_newline_at_found(t, k + 1, i);
    }
}

/// Splits a text into its lines, as `text_lines` states.
pub fn split_lines(t: &Vec<char>) -> (r: Vec<Vec<char>>)
    ensures
        views(r@) == text_lines(t@),
{
    let n = t.len();
    let mut out: Vec<Vec<char>> = Vec::new();
    let mut cur: Vec<char> = Vec::new();
    let mut start: usize = 0;
    let mut i: usize = 0;
    proof {
        assert(views(out@) =~= Seq::<Seq<char>>::empty());
        assert(t@.skip(0) =~= t@);
        assert(views(out@) + text_lines(t@.skip(0)) =~= text_lines(t@));
    }
    while i < n
        invariant
            n == t@.len(),
            start <= i <= n,
            cur@ == t@.subrange(start as int, i as int),
            forall|k: int| start <= k < i ==> t@[k] != '\n',
            views(out@) + text_lines(t@.skip(start as int)) == text_lines(t@),
        decreases n - i,
    {
        if t[i] == '\n' {
            let ghost rest = t@.skip(start as int);
            proof {
                assert forall|m: int| 0 <= m < i - start implies rest[m] != '\n' by {
                    assert(rest[m] == t@[start + m]);
                }
                lemma_newline_at_found(rest, 0, i - start);
                assert(rest.take(i - start) =~= cur@);
                assert(rest.skip(i - start + 1) =~= t@.skip(i + 1));
            }
            let mut line = cur;
            let len = line.len();
            if len > 0 && line[len - 1] == '\r' {
                line.pop();
            }
            proof {
                assert(line@ == strip_cr(cur@));
            }
            let ghost before = out@;
            out.push(line);
            proof {
                assert(out@ =~= before.push(line));
                assert(views(out@) =~= views(before).push(strip_cr(cur@)));
                assert(text_lines(rest) == seq![strip_cr(cur@)] + text_lines(t@.skip(i + 1)));
                assert(views(out@) + text_lines(t@.skip(i + 1)) =~= views(before) + text_lines(rest));
            }
            cur = Vec::new();
            start = i + 1;
        } else {
            cur.push(t[i]);
        }
        i += 1;
        proof {
            assert(cur@ =~= t@.subrange(start as int, i as int));
        }
    }
    let ghost rest = t@.skip(start as int);
    proof {
        assert(rest =~= cur@);
        if rest.len() > 0 {
            assert forall|m: int| 0 <= m < rest.len() implies rest[m] != '\n' by {
                assert(rest[m] == t@[start + m]);
            }
            lemma_newline_at_found(rest, 0, rest.len() as int);
        }
    }
    if cur.len() > 0 {
        let ghost before = out@;
        out.push(cur);
        proof {
            assert(out@ =~= before.push(out@.last()));
            assert(views(out@) =~= views(before).push(rest));
            assert(views(out@) =~= views(before) + text_lines(rest));
        }
    } else {
        proof {
            assert(views(out@) =~= views(out@) + text_lines(rest));
        }
    }
    out
}

} // verus!

verus! {

// ---------------------------------------------------------------------------
// Whitespace and tokens
// ---------------------------------------------------------------------------

/// std's `char::is_whitespace`: the characters with Unicode's White_Space
/// property.
pub open spec fn is_ws(c: char) -> bool {
    let u = c as u32;
    ||| 0x09 <= u <= 0x0d
    ||| u == 0x20
    ||| u == 0x85
    ||| u == 0xa0
    ||| u == 0x1680
    ||| 0x2000 <= u <= 0x200a
    ||| u == 0x2028
    ||| u == 0x2029
    ||| u == 0x202f
    ||| u == 0x205f
    ||| u == 0x3000
}

/// Whether `c` is whitespace.
pub fn is_whitespace(c: char) -> (r: bool)
    ensures
        r == is_ws(c),
{
    let u = c as u32;
    (0x09 <= u && u <= 0x0d) || u == 0x20 || u == 0x85 || u == 0xa0 || u == 0x1680 || (0x2000
        <= u && u <= 0x200a) || u == 0x2028 || u == 0x2029 || u == 0x202f || u == 0x205f || u
        == 0x3000
}

/// Every character of `s` is whitespace (so `s.trim()` is empty).
pub open spec fn all_ws(s: Seq<char>) -> bool {
    forall|i: int| 0 <= i < s.len() ==> is_ws(#[trigger] s[i])
}

/// Whether every character of `s` is whitespace.
pub fn is_blank(s: &Vec<char>) -> (r: bool)
    ensures
        r == all_ws(s@),
{
    let mut i: usize = 0;
    while i < s.len()
        invariant
            i <= s@.len(),
            forall|k: int| 0 <= k < i ==> is_ws(#[trigger] s@[k]),
        decreases s.len() - i,
    {
        if !is_whitespace(s[i]) {
            return false;
        }
        i += 1;
    }
    true
}

/// Index of the first whitespace at or after `i`, or the length.
pub open spec fn token_end(s: Seq<char>, i: int) -> int
    decreases s.len() - i,
{
    if i >= s.len() {
        s.len() as int
    } else if is_ws(s[i]) {
        i
    } else {
        token_end(s, i + 1)
    }
}

proof fn lemma_token_end_found(s: Seq<char>, k: int, e: int)
    requires
        0 <= k <= e <= s.len(),
        forall|m: int| k <= m < e ==> !is_ws(#[trigger] s[m]),
        e == s.len() || is_ws(s[e]),
    ensures
        token_end(s, k) == e,
    decreases e - k,
{
    if k < e {
        lemma_token_end_found(s, k + 1, e);
    }
}

/// `token_end` lies between its start and the length.
pub proof fn lemma_token_end_bounds(s: Seq<char>, i: int)
    requires
        0 <= i,
    ensures
        i <= token_end(s, i) || i > s.len(),
        token_end(s, i) <= s.len(),
    decreases s.len() - i,
{
    if i < s.len() && !is_ws(s[i]) {
        lemma_token_end_bounds(s, i + 1);
    }
}

/// The whitespace-separated tokens of `s`, as std's `str::split_whitespace`
/// yields them (trimming `s` first changes nothing).
pub open spec fn tokens(s: Seq<char>) -> Seq<Seq<char>>
    decreases s.len(),
{
    if s.len() == 0 {
        Seq::empty()
    } else if is_ws(s[0]) {
        tokens(s.drop_first())
    } else {
        let e = token_end(s, 1);
        proof {
            lemma_token_end_bounds(s, 1);
        }
        seq![s.take(e)] + tokens(s.skip(e))
    }
}

/// Splits `s` into its whitespace-separated tokens.
pub fn split_tokens(s: &Vec<char>) -> (r: Vec<Vec<char>>)
    ensures
        views(r@) == tokens(s@),
{
    let n = s.len();
    let mut out: Vec<Vec<char>> = Vec::new();
    let mut cur: Vec<char> = Vec::new();
    let mut start: usize = 0;
    let mut i: usize = 0;
    proof {
        assert(views(out@) =~= Seq::<Seq<char>>::empty());
        assert(s@.skip(0) =~= s@);
        assert(views(out@) + tokens(s@.skip(0)) =~= tokens(s@));
    }
    while i < n
        invariant
            n == s@.len(),
            start <= i <= n,
            cur@ == s@.subrange(start as int, i as int),
            forall|k: int| start <= k < i ==> !is_ws(#[trigger] s@[k]),
            views(out@) + tokens(s@.skip(start as int)) == tokens(s@),
        decreases n - i,
    {
        let c = s[i];
        if is_whitespace(c) {
            let ghost rest = s@.skip(start as int);
            let ghost after = s@.skip(i as int);
            proof {
                assert(after.drop_first() =~= s@.skip(i + 1));
                assert(tokens(after) == tokens(s@.skip(i + 1)));
            }
            if cur.len() > 0 {
                proof {
                    assert forall|m: int| 1 <= m < i - start implies !is_ws(#[trigger] rest[m]) by {
                        assert(rest[m] == s@[start + m]);
                    }
                    assert(rest[0] == s@[start as int]);
                    assert(rest[i - start] == s@[i as int]);
                    lemma_token_end_found(rest, 1, i - start);
                    assert(rest.take(i - start) =~= cur@);
                    assert(rest.skip(i - start) =~= after);
                    assert(tokens(rest) == seq![cur@] + tokens(after));
                }
                let ghost before = out@;
                out.push(cur);
                proof {
                    assert(views(out@) =~= views(before).push(views(out@).last()));
                    assert(views(out@) + tokens(s@.skip(i + 1)) =~= views(before) + tokens(rest));
                }
                cur = Vec::new();
            } else {
                proof {
                    assert(rest =~= after);
                }
            }
            start = i + 1;
        } else {
            cur.push(c);
        }
        i += 1;
        proof {
            assert(cur@ =~= s@.subrange(start as int, i as int));
        }
    }
    let ghost rest = s@.skip(start as int);
    proof {
        assert(rest =~= cur@);
        if rest.len() > 0 {
            assert forall|m: int| 1 <= m < rest.len() implies !is_ws(#[trigger] rest[m]) by {
                assert(rest[m] == s@[start + m]);
            }
            assert(rest[0] == s@[start as int]);
            lemma_token_end_found(rest, 1, rest.len() as int);
            assert(rest.take(rest.len() as int) =~= rest);
            assert(rest.skip(rest.len() as int) =~= Seq::<char>::empty());
            assert(tokens(rest) == seq![rest] + tokens(Seq::<char>::empty()));
        }
    }
    if cur.len() > 0 {
        let ghost before = out@;
        out.push(cur);
        proof {
            assert(views(out@) =~= views(before).push(rest));
            assert(views(out@) =~= views(before) + tokens(rest));
        }
    } else {
        proof {
            assert(views(out@) =~= views(out@) + tokens(rest));
        }
    }
    out
}

// ---------------------------------------------------------------------------
// Decimal numbers
// ---------------------------------------------------------------------------

/// An ASCII decimal digit.
pub open spec fn is_digit(c: char) -> bool {
    48 <= (c as u32) <= 57
}

/// The value of a sequence of decimal digits.
pub open spec fn digits_value(d: Seq<char>) -> nat
    decreases d.len(),
{
    if d.len() == 0 {
        0
    } else {
        digits_value(d.drop_last()) * 10 + ((d.last() as u32) - 48) as nat
    }
}

/// The text of a number without the `+` that may lead it.
pub open spec fn unsigned_digits(s: Seq<char>) -> Seq<char> {
    if s.len() > 0 && s[0] == '+' {
        s.drop_first()
    } else {
        s
    }
}

/// std's `usize::from_str`: an optional `+`, then one or more ASCII digits
/// whose value fits in a `usize`.
pub open spec fn parse_usize(s: Seq<char>) -> Option<nat> {
    let d = unsigned_digits(s);
    if d.len() == 0 || !(forall|i: int| 0 <= i < d.len() ==> is_digit(#[trigger] d[i]))
        || digits_value(d) > usize::MAX {
        None
    } else {
        Some(digits_value(d))
    }
}

proof fn lemma_digits_value_grows(d: Seq<char>, i: int, j: int)
    requires
        0 <= i <= j <= d.len(),
        forall|k: int| 0 <= k < d.len() ==> is_digit(#[trigger] d[k]),
    ensures
        digits_value(d.take(i)) <= digits_value(d.take(j)),
    decreases j - i,
{
    if i < j {
        lemma_digits_value_grows(d, i, j - 1);
        assert(d.take(j).drop_last() =~= d.take(j - 1));
    }
}

/// Parses a decimal number as std's `usize::from_str` does.
pub fn parse_decimal(s: &Vec<char>) -> (r: Option<usize>)
    ensures
        r matches Some(v) ==> parse_usize(s@) == Some(v as nat),
        r is None ==> parse_usize(s@) is None,
{
    let mut i: usize = 0;
    if s.len() > 0 && s[0] == '+' {
        i = 1;
    }
    let first = i;
    let ghost d = s@.skip(first as int);
    proof {
        assert(d =~= unsigned_digits(s@));
    }
    if first == s.len() {
        return None;
    }
    let mut k: usize = first;
    while k < s.len()
        invariant
            first <= k <= s@.len(),
            d == s@.skip(first as int),
            d == unsigned_digits(s@),
            forall|m: int| 0 <= m < k - first ==> is_digit(#[trigger] d[m]),
        decreases s.len() - k,
    {
        let u = s[k] as u32;
        if !(48 <= u && u <= 57) {
            proof {
                assert(d[k - first] == s@[k as int]);
                assert(u == (d[k - first] as u32));
                assert(!is_digit(d[k - first]));
            }
            return None;
        }
        k += 1;
    }
    let mut v: usize = 0;
    let mut k: usize = first;
    while k < s.len()
        invariant
            first <= k <= s@.len(),
            d == s@.skip(first as int),
            d == unsigned_digits(s@),
            forall|m: int| 0 <= m < d.len() ==> is_digit(#[trigger] d[m]),
            v as nat == digits_value(d.take(k - first)),
        decreases s.len() - k,
    {
        let u = s[k] as u32;
        proof {
            assert(d[k - first] == s@[k as int]);
            assert(is_digit(d[k - first]));
        }
        let digit = u - 48;
        proof {
            assert(d.take(k - first + 1).drop_last() =~= d.take(k - first));
            assert(d.take(k - first + 1).last() == s@[k as int]);
        }
        match v.checked_mul(10) {
            Some(t) => match t.checked_add(digit as usize) {
                Some(u) => {
                    v = u;
                },
                None => {
                    proof {
                        assert(digits_value(d.take(k - first + 1)) == v * 10 + digit);
                        lemma_digits_value_grows(d, k - first + 1, d.len() as int);
                        assert(d.take(d.len() as int) =~= d);
                    }
                    return None;
                },
            },
            None => {
                proof {
                    lemma_digits_value_grows(d, k - first + 1, d.len() as int);
                    assert(d.take(d.len() as int) =~= d);
                }
                return None;
            },
        }
        k += 1;
    }
    proof {
        assert(d.take(d.len() as int) =~= d);
    }
    Some(v)
}

} // verus!

verus! {

/// The characters of `v` from `lo` up to `hi`.
pub fn slice_chars(v: &Vec<char>, lo: usize, hi: usize) -> (r: Vec<char>)
    requires
        lo <= hi <= v@.len(),
    ensures
        r@ == v@.subrange(lo as int, hi as int),
{
    let mut r: Vec<char> = Vec::new();
    let mut i = lo;
    while i < hi
        invariant
            lo <= i <= hi <= v@.len(),
            r@ == v@.subrange(lo as int, i as int),
        decreases hi - i,
    {
        r.push(v[i]);
        i += 1;
        assert(r@ =~= v@.subrange(lo as int, i as int));
    }
    r
}

} // verus!

verus! {

/// No character of `s` is a line feed.
pub open spec fn no_newline(s: Seq<char>) -> bool {
    forall|k: int| 0 <= k < s.len() ==> #[trigger] s[k] != '\n'
}

proof fn lemma_newline_at_bounds(t: Seq<char>, i: int)
    requires
        0 <= i <= t.len(),
    ensures
        i <= newline_at(t, i) <= t.len(),
        newline_at(t, i) < t.len() ==> t[newline_at(t, i)] == '\n',
        forall|k: int| i <= k < newline_at(t, i) ==> #[trigger] t[k] != '\n',
    decreases t.len() - i,
{
    if i < t.len() && t[i] != '\n' {
        lemma_newline_at_bounds(t, i + 1);
    }
}

/// No line of a text holds a line feed.
pub proof fn lemma_lines_have_no_newline(t: Seq<char>)
    ensures
        forall|i: int| 0 <= i < text_lines(t).len() ==> no_newline(#[trigger] text_lines(t)[i]),
    decreases t.len(),
{
    if t.len() > 0 {
        let j = newline_at(t, 0);
        lemma_newline_at_bounds(t, 0);
        if j < t.len() {
            lemma_lines_have_no_newline(t.skip(j + 1));
            let first = strip_cr(t.take(j));
            assert(no_newline(first));
            let ls = text_lines(t);
            assert forall|i: int| 0 <= i < ls.len() implies no_newline(#[trigger] ls[i]) by {
                if i > 0 {
                    assert(ls[i] == text_lines(t.skip(j + 1))[i - 1]);
                }
            }
        }
    }
}

/// A non-empty text without line feeds is one line.
pub proof fn lemma_single_line(s: Seq<char>)
    requires
        s.len() > 0,
        no_newline(s),
    ensures
        text_lines(s) == seq![s],
{
    lemma_newline_at_bounds(s, 0);
}

} // verus!
