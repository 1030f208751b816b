//! Character-level building blocks shared by the parsers of this crate.
//!
//! Strings are modelled by their views, `Seq<char>`. The spec functions here
//! state what trimming, splitting and searching mean; the executable functions
//! compute them on `Vec<char>` buffers and are proved against those statements.
use vstd::prelude::*;

verus! {

/// Unicode `White_Space`, the property behind `char::is_whitespace`.
pub open spec fn is_ws(c: char) -> bool {
    ||| ('\u{9}' <= c && c <= '\u{d}')
    ||| c == ' '
    ||| c == '\u{85}'
    ||| c == '\u{a0}'
    ||| c == '\u{1680}'
    ||| ('\u{2000}' <= c && c <= '\u{200a}')
    ||| c == '\u{2028}'
    ||| c == '\u{2029}'
    ||| c == '\u{202f}'
    ||| c == '\u{205f}'
    ||| c == '\u{3000}'
}

/// General category `Cc`, the property behind `char::is_control`.
pub open spec fn is_ctrl(c: char) -> bool {
    c <= '\u{1f}' || ('\u{7f}' <= c && c <= '\u{9f}')
}

/// A character stripped by a trim: whitespace, and also `.` when `dots` holds.
pub open spec fn trimmable(c: char, dots: bool) -> bool {
    is_ws(c) || (dots && c == '.')
}

/// `s` without its leading trimmable characters.
pub open spec fn trim_start_by(s: Seq<char>, dots: bool) -> Seq<char>
    decreases s.len(),
{
    if s.len() > 0 && trimmable(s[0], dots) {
        trim_start_by(s.drop_first(), dots)
    } else {
        s
    }
}

/// `s` without its trailing trimmable characters.
pub open spec fn trim_end_by(s: Seq<char>, dots: bool) -> Seq<char>
    decreases s.len(),
{
    if s.len() > 0 && trimmable(s.last(), dots) {
        trim_end_by(s.drop_last(), dots)
    } else {
        s
    }
}

/// `s` without trimmable characters at either end.
pub open spec fn trim_by(s: Seq<char>, dots: bool) -> Seq<char> {
    trim_end_by(trim_start_by(s, dots), dots)
}

/// What `str::trim` returns: `s` without whitespace at either end.
pub open spec fn trim(s: Seq<char>) -> Seq<char> {
    trim_by(s, false)
}

/// What `str::trim_end` returns.
pub open spec fn trim_end(s: Seq<char>) -> Seq<char> {
    trim_end_by(s, false)
}

/// The pieces of `s` between occurrences of `sep`, as `str::split` yields
/// them: one more piece than there are separators, empty pieces included.
pub open spec fn split_on(s: Seq<char>, sep: char) -> Seq<Seq<char>>
    decreases s.len(),
{
    if s.len() == 0 {
        seq![Seq::<char>::empty()]
    } else {
        let p = split_on(s.drop_last(), sep);
        if s.last() == sep {
            p.push(Seq::<char>::empty())
        } else {
            p.update(p.len() - 1, p.last().push(s.last()))
        }
    }
}

/// The position of the first occurrence of `c` in `s`.
pub open spec fn first_index(s: Seq<char>, c: char) -> Option<int>
    decreases s.len(),
{
    if s.len() == 0 {
        None
    } else if s[0] == c {
        Some(0)
    } else {
        match first_index(s.drop_first(), c) {
            Some(i) => Some(i + 1),
            None => None,
        }
    }
}

/// Whether `c` occurs in `s`.
pub open spec fn has_char(s: Seq<char>, c: char) -> bool {
    exists|i: int| 0 <= i < s.len() && s[i] == c
}

/// Whether `t` occurs as a contiguous piece of `s`.
pub open spec fn contains_seq(s: Seq<char>, t: Seq<char>) -> bool {
    exists|i: int| 0 <= i && i + t.len() <= s.len() && #[trigger] s.subrange(i, i + t.len()) == t
}

/// Whether `s` begins with `p`.
pub open spec fn starts_with(s: Seq<char>, p: Seq<char>) -> bool {
    p.len() <= s.len() && s.subrange(0, p.len() as int) == p
}

/// Whether `s` ends with `p`.
pub open spec fn ends_with(s: Seq<char>, p: Seq<char>) -> bool {
    p.len() <= s.len() && s.subrange(s.len() - p.len(), s.len() as int) == p
}

/// `c` with ASCII letters mapped to lower case, everything else unchanged.
pub open spec fn ascii_lower(c: char) -> char {
    if 'A' <= c && c <= 'Z' {
        ((c as u32) + 32) as char
    } else {
        c
    }
}

/// Equality of two strings up to ASCII case, as `str::eq_ignore_ascii_case`.
pub open spec fn eq_ignore_ascii_case(a: Seq<char>, b: Seq<char>) -> bool {
    a.len() == b.len() && forall|i: int| 0 <= i < a.len() ==> ascii_lower(a[i]) == ascii_lower(b[i])
}

/// Unicode `White_Space`, computed.
pub fn is_whitespace_char(c: char) -> (b: bool)
    ensures
        b == is_ws(c),
{
    ('\u{9}' <= c && c <= '\u{d}') || c == ' ' || c == '\u{85}' || c == '\u{a0}' || c == '\u{1680}'
        || ('\u{2000}' <= c && c <= '\u{200a}') || c == '\u{2028}' || c == '\u{2029}' || c
        == '\u{202f}' || c == '\u{205f}' || c == '\u{3000}'
}

/// General category `Cc`, computed.
pub fn is_control_char(c: char) -> (b: bool)
    ensures
        b == is_ctrl(c),
{
    c <= '\u{1f}' || ('\u{7f}' <= c && c <= '\u{9f}')
}

/// `c` with ASCII letters mapped to lower case, computed.
pub fn ascii_lower_char(c: char) -> (r: char)
    ensures
        r == ascii_lower(c),
{
    if 'A' <= c && c <= 'Z' {
        let u: u32 = (c as u32) + 32;
        assert(u <= 0x7a);
        char_from_ascii(u)
    } else {
        c
    }
}

/// The character whose code point is `u`, for an ASCII code point.
fn char_from_ascii(u: u32) -> (c: char)
    requires
        u < 128,
    ensures
        c == u as char,
{
    let b: u8 = u as u8;
    b as char
}

/// The characters of a string slice, in order.
pub fn chars_of(s: &str) -> (out: Vec<char>)
    ensures
        out@ == s@,
{
    let mut out: Vec<char> = Vec::new();
    for c in it: s.chars()
        invariant
            out@ == it.seq().take(it.index()),
            it.seq() == s@,
    {
        out.push(c);
    }
    out
}

/// A `String` holding exactly the given characters.
///
/// Calls `String::from_iter` of std on the characters; what comes back is
/// believed to hold them in order, as std documents.
#[verifier::external_body]
pub(crate) fn string_from_chars(cs: &[char]) -> (s: String)
    ensures
        s@ == cs@,
{
    String::from_iter(cs.iter())
}

/// The characters `cs[from..to]` as a new buffer.
pub fn slice_chars(cs: &[char], from: usize, to: usize) -> (out: Vec<char>)
    requires
        from <= to <= cs@.len(),
    ensures
        out@ == cs@.subrange(from as int, to as int),
{
    let mut out: Vec<char> = Vec::new();
    let mut i = from;
    while i < to
        invariant
            from <= i <= to <= cs@.len(),
            out@ == cs@.subrange(from as int, i as int),
        decreases to - i,
    {
        out.push(cs[i]);
        i += 1;
        assert(out@ =~= cs@.subrange(from as int, i as int));
    }
    out
}

/// `cs[from..to]` as a `String`.
pub fn string_of_range(cs: &[char], from: usize, to: usize) -> (s: String)
    requires
        from <= to <= cs@.len(),
    ensures
        s@ == cs@.subrange(from as int, to as int),
{
    let v = slice_chars(cs, from, to);
    string_from_chars(v.as_slice())
}

/// Whether two character sequences are equal.
pub fn chars_eq(a: &[char], b: &[char]) -> (r: bool)
    ensures
        r == (a@ == b@),
{
    if a.len() != b.len() {
        return false;
    }
    let mut i: usize = 0;
    while i < a.len()
        invariant
            a@.len() == b@.len(),
            i <= a@.len(),
            forall|j: int| 0 <= j < i ==> a@[j] == b@[j],
        decreases a@.len() - i,
    {
        if a[i] != b[i] {
            return false;
        }
        i += 1;
    }
    assert(a@ =~= b@);
    true
}

/// Whether the characters `a` spell the string `b`.
pub fn chars_eq_str(a: &[char], b: &str) -> (r: bool)
    ensures
        r == (a@ == b@),
{
    let bc = chars_of(b);
    chars_eq(a, bc.as_slice())
}

/// Whether two strings are equal.
pub fn str_eq(a: &str, b: &str) -> (r: bool)
    ensures
        r == (a@ == b@),
{
    let ac = chars_of(a);
    chars_eq_str(ac.as_slice(), b)
}

/// Equality up to ASCII case, computed.
pub fn chars_eq_ignore_ascii_case(a: &[char], b: &[char]) -> (r: bool)
    ensures
        r == eq_ignore_ascii_case(a@, b@),
{
    if a.len() != b.len() {
        return false;
    }
    let mut i: usize = 0;
    while i < a.len()
        invariant
            a@.len() == b@.len(),
            i <= a@.len(),
            forall|j: int| 0 <= j < i ==> ascii_lower(a@[j]) == ascii_lower(b@[j]),
        decreases a@.len() - i,
    {
        if ascii_lower_char(a[i]) != ascii_lower_char(b[i]) {
            return false;
        }
        i += 1;
    }
    true
}

/// Whether `c` occurs in `cs`.
pub fn contains_char(cs: &[char], c: char) -> (r: bool)
    ensures
        r == has_char(cs@, c),
{
    let mut i: usize = 0;
    while i < cs.len()
        invariant
            i <= cs@.len(),
            forall|j: int| 0 <= j < i ==> cs@[j] != c,
        decreases cs@.len() - i,
    {
        if cs[i] == c {
            return true;
        }
        i += 1;
    }
    false
}

proof fn lemma_first_index_absent(s: Seq<char>, c: char)
    requires
        forall|j: int| 0 <= j < s.len() ==> s[j] != c,
    ensures
        first_index(s, c) is None,
    decreases s.len(),
{
    if s.len() > 0 {
        lemma_first_index_absent(s.drop_first(), c);
    }
}

proof fn lemma_first_index_at(s: Seq<char>, c: char, i: int)
    requires
        0 <= i < s.len(),
        s[i] == c,
        forall|j: int| 0 <= j < i ==> s[j] != c,
    ensures
        first_index(s, c) == Some(i),
    decreases s.len(),
{
    if i > 0 {
        lemma_first_index_at(s.drop_first(), c, i - 1);
    }
}

/// Facts about the first occurrence of a character.
pub proof fn lemma_first_index(s: Seq<char>, c: char)
    ensures
        first_index(s, c) matches Some(i) ==> 0 <= i < s.len() && s[i] == c && forall|j: int|
            0 <= j < i ==> s[j] != c,
        first_index(s, c) is None ==> forall|j: int| 0 <= j < s.len() ==> s[j] != c,
    decreases s.len(),
{
    if s.len() > 0 {
        lemma_first_index(s.drop_first(), c);
        if s[0] != c {
            assert forall|j: int| 1 <= j < s.len() implies s[j] == s.drop_first()[j - 1] by {}
        }
    }
}

/// The position of the first occurrence of `c` in `cs`.
pub fn find_char(cs: &[char], c: char) -> (r: Option<usize>)
    ensures
        match r {
            Some(i) => first_index(cs@, c) == Some(i as int),
            None => first_index(cs@, c) is None,
        },
{
    let mut i: usize = 0;
    while i < cs.len()
        invariant
            i <= cs@.len(),
            forall|j: int| 0 <= j < i ==> cs@[j] != c,
        decreases cs@.len() - i,
    {
        if cs[i] == c {
            proof {
                lemma_first_index_at(cs@, c, i as int);
            }
            return Some(i);
        }
        i += 1;
    }
    proof {
        lemma_first_index_absent(cs@, c);
    }
    None
}

/// Whether `c` is trimmable, computed.
fn is_trimmable(c: char, dots: bool) -> (b: bool)
    ensures
        b == trimmable(c, dots),
{
    is_whitespace_char(c) || (dots && c == '.')
}

/// The bounds of `cs` once trimmable characters are stripped from both ends.
pub fn trim_bounds(cs: &[char], dots: bool) -> (r: (usize, usize))
    ensures
        r.0 <= r.1 <= cs@.len(),
        cs@.subrange(r.0 as int, r.1 as int) == trim_by(cs@, dots),
{
    let n = cs.len();
    let mut a: usize = 0;
    assert(cs@.subrange(0, n as int) =~= cs@);
    while a < n && is_trimmable(cs[a], dots)
        invariant
            n == cs@.len(),
            a <= n,
            trim_start_by(cs@, dots) == trim_start_by(cs@.subrange(a as int, n as int), dots),
        decreases n - a,
    {
        assert(cs@.subrange(a as int, n as int).drop_first() =~= cs@.subrange(
            a + 1,
            n as int,
        ));
        a += 1;
    }
    let ghost start = cs@.subrange(a as int, n as int);
    assert(trim_start_by(cs@, dots) == start);
    let mut b: usize = n;
    while b > a && is_trimmable(cs[b - 1], dots)
        invariant
            n == cs@.len(),
            a <= b <= n,
            start == cs@.subrange(a as int, n as int),
            trim_end_by(start, dots) == trim_end_by(cs@.subrange(a as int, b as int), dots),
        decreases b - a,
    {
        assert(cs@.subrange(a as int, b as int).drop_last() =~= cs@.subrange(
            a as int,
            b - 1,
        ));
        b -= 1;
    }
    (a, b)
}

/// The bound of `cs` once trailing whitespace is stripped.
pub fn trim_end_bound(cs: &[char]) -> (r: usize)
    ensures
        r <= cs@.len(),
        cs@.subrange(0, r as int) == trim_end(cs@),
{
    let mut b: usize = cs.len();
    assert(cs@.subrange(0, b as int) =~= cs@);
    while b > 0 && is_whitespace_char(cs[b - 1])
        invariant
            b <= cs@.len(),
            trim_end(cs@) == trim_end_by(cs@.subrange(0, b as int), false),
        decreases b,
    {
        assert(cs@.subrange(0, b as int).drop_last() =~= cs@.subrange(0, b - 1));
        b -= 1;
    }
    proof {
        assert(cs@.subrange(0, cs@.len() as int) =~= cs@);
    }
    b
}

/// `trim(s)` as a new buffer.
pub fn trimmed(cs: &[char]) -> (out: Vec<char>)
    ensures
        out@ == trim(cs@),
{
    let (a, b) = trim_bounds(cs, false);
    slice_chars(cs, a, b)
}

/// The pieces of `cs` between occurrences of `sep`.
pub fn split_chars(cs: &[char], sep: char) -> (out: Vec<Vec<char>>)
    ensures
        out.deep_view() == split_on(cs@, sep),
{
    let mut done: Vec<Vec<char>> = Vec::new();
    let mut cur: Vec<char> = Vec::new();
    let mut i: usize = 0;
    assert(cs@.subrange(0, 0) =~= Seq::<char>::empty());
    while i < cs.len()
        invariant
            i <= cs@.len(),
            done.deep_view().push(cur@) == split_on(cs@.subrange(0, i as int), sep),
        decreases cs@.len() - i,
    {
        let c = cs[i];
        proof {
            let s = cs@.subrange(0, i + 1);
            assert(s.drop_last() =~= cs@.subrange(0, i as int));
            assert(s.last() == c);
        }
        if c == sep {
            let ghost before = done.deep_view();
            let ghost cur_view = cur@;
            assert(cur.deep_view() =~= cur@);
            let finished = cur;
            done.push(finished);
            cur = Vec::new();
            proof {
                assert(done.deep_view() =~= before.push(cur_view));
            }
        } else {
            let ghost before = done.deep_view();
            cur.push(c);
            proof {
                assert(done.deep_view() == before);
            }
        }
        i += 1;
        proof {
            assert(done.deep_view().push(cur@) =~= split_on(cs@.subrange(0, i as int), sep));
        }
    }
    let ghost before = done.deep_view();
    let ghost cur_view = cur@;
    assert(cur.deep_view() =~= cur@);
    done.push(cur);
    proof {
        assert(done.deep_view() =~= before.push(cur_view));
        assert(cs@.subrange(0, cs@.len() as int) =~= cs@);
    }
    done
}

/// `s` without one trailing carriage return.
pub open spec fn strip_cr(s: Seq<char>) -> Seq<char> {
    if s.len() > 0 && s.last() == '\r' {
        s.drop_last()
    } else {
        s
    }
}

/// The lines of `s`, as `str::lines` yields them: pieces between line feeds,
/// each without a carriage return before its line feed; a final empty piece
/// (after a trailing line feed, or of an empty string) is not a line.
pub open spec fn lines_of(s: Seq<char>) -> Seq<Seq<char>> {
    let p = split_on(s, '\n');
    let k = p.len() - 1;
    p.take(k).map_values(|l: Seq<char>| strip_cr(l)) + if p[k].len() == 0 {
        Seq::<Seq<char>>::empty()
    } else {
        seq![p[k]]
    }
}

/// `str::split` yields at least one piece.
pub proof fn lemma_split_nonempty(s: Seq<char>, sep: char)
    ensures
        split_on(s, sep).len() >= 1,
    decreases s.len(),
{
    if s.len() > 0 {
        lemma_split_nonempty(s.drop_last(), sep);
    }
}

/// The position of the first occurrence of `pat` in `s`.
pub open spec fn find_seq(s: Seq<char>, pat: Seq<char>) -> Option<int>
    decreases s.len(),
{
    if starts_with(s, pat) {
        Some(0)
    } else if s.len() == 0 {
        None
    } else {
        match find_seq(s.drop_first(), pat) {
            Some(i) => Some(i + 1),
            None => None,
        }
    }
}

/// Facts about the first occurrence of a pattern.
pub proof fn lemma_find_seq(s: Seq<char>, pat: Seq<char>)
    ensures
        find_seq(s, pat) matches Some(i) ==> 0 <= i && i + pat.len() <= s.len(),
    decreases s.len(),
{
    if !starts_with(s, pat) && s.len() > 0 {
        lemma_find_seq(s.drop_first(), pat);
    }
}

/// A pattern is found exactly when it occurs.
pub proof fn lemma_find_contains(s: Seq<char>, pat: Seq<char>)
    ensures
        (find_seq(s, pat) is Some) == contains_seq(s, pat),
    decreases s.len(),
{
    if starts_with(s, pat) {
        assert(s.subrange(0int, 0int + pat.len()) == pat);
        assert(contains_seq(s, pat));
    } else if s.len() == 0 {
        if contains_seq(s, pat) {
            let i = choose|i: int| 0 <= i && i + pat.len() <= s.len() && #[trigger] s.subrange(i, i + pat.len()) == pat;
            assert(pat.len() == 0);
            assert(s.subrange(0, 0) =~= pat);
        }
    } else {
        let t = s.drop_first();
        lemma_find_contains(t, pat);
        if contains_seq(t, pat) {
            let i = choose|i: int| 0 <= i && i + pat.len() <= t.len() && #[trigger] t.subrange(i, i + pat.len()) == pat;
            assert(s.subrange(i + 1, i + 1 + pat.len()) =~= t.subrange(i, i + pat.len()));
            assert(contains_seq(s, pat));
        }
        if contains_seq(s, pat) {
            let i = choose|i: int| 0 <= i && i + pat.len() <= s.len() && #[trigger] s.subrange(i, i + pat.len()) == pat;
            if i == 0 {
                assert(starts_with(s, pat));
            } else {
                assert(t.subrange(i - 1, i - 1 + pat.len()) =~= s.subrange(i, i + pat.len()));
                assert(contains_seq(t, pat));
            }
        }
    }
}

/// Whether `t` occurs in `s`, as `str::contains` tells.
pub fn contains_str(s: &str, t: &str) -> (r: bool)
    ensures
        r == contains_seq(s@, t@),
{
    let sc = chars_of(s);
    let tc = chars_of(t);
    proof {
        lemma_find_contains(s@, t@);
    }
    find_chars(sc.as_slice(), tc.as_slice()).is_some()
}

/// The split of `s` at its first line feeds, each line without a carriage
/// return before its line feed.
pub fn lines_chars(cs: &[char]) -> (out: Vec<Vec<char>>)
    ensures
        out.deep_view() == lines_of(cs@),
{
    let pieces = split_chars(cs, '\n');
    let ghost p = split_on(cs@, '\n');
    proof {
        lemma_split_nonempty(cs@, '\n');
    }
    let k = pieces.len() - 1;
    let mut out: Vec<Vec<char>> = Vec::new();
    let mut i: usize = 0;
    while i < k
        invariant
            pieces.deep_view() == p,
            p.len() == pieces@.len(),
            k == p.len() - 1,
            i <= k,
            out.deep_view() == p.take(i as int).map_values(|l: Seq<char>| strip_cr(l)),
        decreases k - i,
    {
        let piece = &pieces[i];
        let len = piece.len();
        let line = if len > 0 && piece[len - 1] == '\r' {
            slice_chars(piece.as_slice(), 0, len - 1)
        } else {
            slice_chars(piece.as_slice(), 0, len)
        };
        proof {
            assert(piece@ =~= p[i as int]);
            assert(piece@.subrange(0, len as int) =~= piece@);
            if len > 0 {
                assert(piece@.subrange(0, len - 1) =~= piece@.drop_last());
            }
            assert(line.deep_view() =~= line@);
            assert(line@ == strip_cr(p[i as int]));
        }
        let ghost before = out.deep_view();
        out.push(line);
        proof {
            assert(out.deep_view() =~= before.push(strip_cr(p[i as int])));
            assert(p.take(i + 1).map_values(|l: Seq<char>| strip_cr(l)) =~= p.take(
                i as int,
            ).map_values(|l: Seq<char>| strip_cr(l)).push(strip_cr(p[i as int])));
        }
        i += 1;
    }
    let last = &pieces[k];
    proof {
        assert(last@ =~= p[k as int]);
    }
    if last.len() > 0 {
        let l = slice_chars(last.as_slice(), 0, last.len());
        proof {
            assert(last@.subrange(0, last@.len() as int) =~= last@);
            assert(l.deep_view() =~= l@);
        }
        let ghost before = out.deep_view();
        out.push(l);
        proof {
            assert(out.deep_view() =~= before + seq![p[k as int]]);
        }
    } else {
        proof {
            assert(out.deep_view() =~= out.deep_view() + Seq::<Seq<char>>::empty());
        }
    }
    out
}

/// Whether `cs` begins with `pat`.
pub fn starts_with_chars(cs: &[char], pat: &[char]) -> (r: bool)
    ensures
        r == starts_with(cs@, pat@),
{
    if pat.len() > cs.len() {
        return false;
    }
    let head = slice_chars(cs, 0, pat.len());
    chars_eq(head.as_slice(), pat)
}

/// Whether `cs` ends with `pat`.
pub fn ends_with_chars(cs: &[char], pat: &[char]) -> (r: bool)
    ensures
        r == ends_with(cs@, pat@),
{
    if pat.len() > cs.len() {
        return false;
    }
    let n = cs.len();
    let tail = slice_chars(cs, n - pat.len(), n);
    chars_eq(tail.as_slice(), pat)
}

/// Whether `cs` begins with the string `p`.
pub fn starts_with_str(cs: &[char], p: &str) -> (r: bool)
    ensures
        r == starts_with(cs@, p@),
{
    let pc = chars_of(p);
    starts_with_chars(cs, pc.as_slice())
}

/// The position of the first occurrence of `pat` in `cs`.
pub fn find_chars(cs: &[char], pat: &[char]) -> (r: Option<usize>)
    ensures
        match r {
            Some(i) => find_seq(cs@, pat@) == Some(i as int),
            None => find_seq(cs@, pat@) is None,
        },
{
    let n = cs.len();
    let mut i: usize = 0;
    assert(cs@.subrange(0, n as int) =~= cs@);
    while i <= n
        invariant
            i <= n + 1,
            n == cs@.len(),
            i <= n ==> find_seq(cs@, pat@) == match find_seq(cs@.subrange(i as int, n as int), pat@) {
                Some(j) => Some(j + i),
                None => None,
            },
            i > n ==> find_seq(cs@, pat@) is None,
        decreases n + 1 - i,
    {
        let rest = slice_chars(cs, i, n);
        if starts_with_chars(rest.as_slice(), pat) {
            return Some(i);
        }
        if i == n {
            return None;
        }
        proof {
            assert(rest@.drop_first() =~= cs@.subrange(i + 1, n as int));
        }
        i += 1;
    }
    None
}

} // verus!
