//! Character-sequence helpers shared by the rest of the crate.
//!
//! Strings are viewed as `Seq<char>`; the executable helpers work on
//! `Vec<char>` so that indexing is constant-time.

use vstd::prelude::*;

verus! {

/// `needle` occurs in `hay` starting at index `at`.
pub open spec fn occurs_at(hay: Seq<char>, needle: Seq<char>, at: int) -> bool {
    0 <= at && at + needle.len() <= hay.len() && hay.subrange(at, at + needle.len()) == needle
}

/// `hay` begins with `needle`.
pub open spec fn has_prefix(hay: Seq<char>, needle: Seq<char>) -> bool {
    occurs_at(hay, needle, 0)
}

/// `hay` ends with `needle`.
pub open spec fn has_suffix(hay: Seq<char>, needle: Seq<char>) -> bool {
    occurs_at(hay, needle, hay.len() - needle.len())
}

/// `needle` occurs somewhere in `hay`.
pub open spec fn has_infix(hay: Seq<char>, needle: Seq<char>) -> bool {
    exists|at: int| occurs_at(hay, needle, at)
}

/// The views of a sequence of strings, element by element.
pub open spec fn views(v: Seq<String>) -> Seq<Seq<char>> {
    Seq::new(v.len(), |i: int| v[i]@)
}

/// The views of a sequence of character vectors, element by element.
pub open spec fn rows(v: Seq<Vec<char>>) -> Seq<Seq<char>> {
    Seq::new(v.len(), |i: int| v[i]@)
}

/// Moves the strings of `more` to the end of `v`, in order.
pub fn append_strings(v: &mut Vec<String>, more: Vec<String>)
    ensures
        views(final(v)@) == views(old(v)@) + views(more@),
{
    let mut more = more;
    let ghost before = v@;
    let ghost added = more@;
    v.append(&mut more);
    assert(views(v@) =~= views(before) + views(added));
}

/// The characters of a string, in order.
pub fn to_chars(s: &str) -> (v: Vec<char>)
    ensures
        v@ == s@,
{
    let mut v: Vec<char> = Vec::new();
    for c in it: s.chars()
        invariant
            v@ == it.seq().take(it.index() as int),
            it.seq() == s@,
    {
        v.push(c);
    }
    v
}


/// `String::push` of the standard library: the character is appended to the
/// string's end, nothing else changes.
pub assume_specification[ String::push ](s: &mut String, c: char)
    ensures
        final(s)@ == old(s)@.push(c),
;

/// The string made of the given characters, in order.
pub fn from_chars(v: &[char]) -> (s: String)
    ensures
        s@ == v@,
{
    let mut s = String::new();
    let mut i: usize = 0;
    while i < v.len()
        invariant
            i <= v.len(),
            s@ == v@.take(i as int),
        decreases v.len() - i,
    {
        s.push(v[i]);
        i += 1;
    }
    s
}

/// Whether `needle` occurs in `hay` at index `at`.
pub fn occurs_at_exec(hay: &[char], needle: &[char], at: usize) -> (r: bool)
    ensures
        r == occurs_at(hay@, needle@, at as int),
{
    if at > hay.len() || needle.len() > hay.len() - at {
        return false;
    }
    let mut i: usize = 0;
    while i < needle.len()
        invariant
            i <= needle.len(),
            at + needle.len() <= hay.len(),
            forall|j: int| 0 <= j < i ==> hay@[at + j] == needle@[j],
        decreases needle.len() - i,
    {
        if hay[at + i] != needle[i] {
            proof {
                let sub = hay@.subrange(at as int, at + needle.len());
                assert(sub[i as int] == hay@[at + i]);
            }
            return false;
        }
        i += 1;
    }
    proof {
        assert(hay@.subrange(at as int, at + needle.len()) =~= needle@);
    }
    true
}

/// Whether `hay` begins with `needle`.
pub fn starts_with(hay: &[char], needle: &[char]) -> (r: bool)
    ensures
        r == has_prefix(hay@, needle@),
{
    occurs_at_exec(hay, needle, 0)
}

/// Whether `hay` ends with `needle`.
pub fn ends_with(hay: &[char], needle: &[char]) -> (r: bool)
    ensures
        r == has_suffix(hay@, needle@),
{
    if needle.len() > hay.len() {
        return false;
    }
    occurs_at_exec(hay, needle, hay.len() - needle.len())
}

/// The first index at which `needle` occurs in `hay`, if there is one.
pub fn find(hay: &[char], needle: &[char]) -> (r: Option<usize>)
    ensures
        match r {
            Some(at) => occurs_at(hay@, needle@, at as int) && forall|j: int|
                0 <= j < at ==> !occurs_at(hay@, needle@, j),
            None => !has_infix(hay@, needle@),
        },
{
    if needle.len() > hay.len() {
        return None;
    }
    let last: usize = hay.len() - needle.len();
    let mut at: usize = 0;
    loop
        invariant
            at <= last,
            last == hay.len() - needle.len(),
            forall|j: int| 0 <= j < at ==> !occurs_at(hay@, needle@, j),
        decreases last - at,
    {
        if occurs_at_exec(hay, needle, at) {
            return Some(at);
        }
        if at == last {
            return None;
        }
        at += 1;
    }
}

/// Whether `needle` occurs somewhere in `hay`.
pub fn contains(hay: &[char], needle: &[char]) -> (r: bool)
    ensures
        r == has_infix(hay@, needle@),
{
    find(hay, needle).is_some()
}

/// Whether two sequences of characters are the same.
pub fn same_chars(a: &[char], b: &[char]) -> (r: bool)
    ensures
        r == (a@ == b@),
{
    if a.len() != b.len() {
        return false;
    }
    let r = occurs_at_exec(a, b, 0);
    proof {
        assert(a@.subrange(0, a@.len() as int) =~= a@);
    }
    r
}

/// Whether two strings hold the same text.
pub fn same_text(a: &str, b: &str) -> (r: bool)
    ensures
        r == (a@ == b@),
{
    let a_chars = to_chars(a);
    let b_chars = to_chars(b);
    same_chars(&a_chars, &b_chars)
}

/// The characters of `a` followed by those of `b`.
pub fn concat(a: &[char], b: &[char]) -> (v: Vec<char>)
    ensures
        v@ == a@ + b@,
{
    let mut v: Vec<char> = Vec::new();
    let mut i: usize = 0;
    while i < a.len()
        invariant
            i <= a.len(),
            v@ == a@.take(i as int),
        decreases a.len() - i,
    {
        v.push(a[i]);
        i += 1;
    }
    let mut j: usize = 0;
    while j < b.len()
        invariant
            j <= b.len(),
            v@ == a@ + b@.take(j as int),
        decreases b.len() - j,
    {
        v.push(b[j]);
        j += 1;
    }
    v
}

/// The characters of `v` from index `from` up to, not including, `to`.
pub fn slice_of(v: &[char], from: usize, to: usize) -> (r: Vec<char>)
    requires
        from <= to <= v.len(),
    ensures
        r@ == v@.subrange(from as int, to as int),
{
    let mut r: Vec<char> = Vec::new();
    let mut i: usize = from;
    while i < to
        invariant
            from <= i <= to <= v.len(),
            r@ == v@.subrange(from as int, i as int),
        decreases to - i,
    {
        r.push(v[i]);
        i += 1;
    }
    r
}


/// The index of the first line feed of `text`, its length where it has none.
pub open spec fn first_newline(text: Seq<char>) -> int
    decreases text.len(),
{
    if text.len() == 0 {
        0
    } else if text[0] == '\n' {
        0
    } else {
        1 + first_newline(text.drop_first())
    }
}

/// `line` without one trailing carriage return.
pub open spec fn strip_cr(line: Seq<char>) -> Seq<char> {
    if line.len() > 0 && line.last() == '\r' {
        line.drop_last()
    } else {
        line
    }
}

/// The lines of a text. A line ends at a line feed, which is not part of
/// it, and neither is a carriage return directly before that line feed. What
/// follows the last line feed is a line unless it is empty.
pub open spec fn lines_of(text: Seq<char>) -> Seq<Seq<char>>
    decreases text.len(),
    via lines_of_decreases
{
    if text.len() == 0 {
        Seq::empty()
    } else {
        let nl = first_newline(text);
        if nl >= text.len() {
            seq![text]
        } else {
            seq![strip_cr(text.subrange(0, nl))] + lines_of(
                text.subrange(nl + 1, text.len() as int),
            )
        }
    }
}

#[via_fn]
proof fn lines_of_decreases(text: Seq<char>) {
    lemma_first_newline_is(text);
}

/// `k` is the index of the first line feed of `text`, or its length.
pub open spec fn is_first_newline(text: Seq<char>, k: int) -> bool {
    &&& 0 <= k <= text.len()
    &&& forall|j: int| 0 <= j < k ==> text[j] != '\n'
    &&& (k == text.len() || text[k] == '\n')
}

/// `first_newline` is the least index of a line feed, or the length.
pub proof fn lemma_first_newline_is(text: Seq<char>)
    ensures
        is_first_newline(text, first_newline(text)),
    decreases text.len(),
{
    if text.len() > 0 && text[0] != '\n' {
        let rest = text.drop_first();
        lemma_first_newline_is(rest);
        assert forall|j: int| 0 <= j < first_newline(text) implies text[j] != '\n' by {
            if j > 0 {
                assert(rest[j - 1] == text[j]);
            }
        }
    }
}

/// Any index with the defining property is `first_newline`.
pub proof fn lemma_first_newline(text: Seq<char>, k: int)
    ensures
        0 <= first_newline(text) <= text.len(),
        is_first_newline(text, k) ==> first_newline(text) == k,
{
    lemma_first_newline_is(text);
    if is_first_newline(text, k) {
        let f = first_newline(text);
        if f < k {
            assert(text[f] != '\n');
        } else if k < f {
            assert(text[k] != '\n');
        }
    }
}

/// The lines joined by single line feeds.
pub open spec fn join_lines(lines: Seq<Seq<char>>) -> Seq<char>
    decreases lines.len(),
{
    if lines.len() == 0 {
        Seq::empty()
    } else if lines.len() == 1 {
        lines[0]
    } else {
        join_lines(lines.drop_last()) + seq!['\n'] + lines.last()
    }
}

/// The lines of a text, in order.
pub fn split_lines(text: &[char]) -> (lines: Vec<Vec<char>>)
    ensures
        rows(lines@) == lines_of(text@),
{
    let mut lines: Vec<Vec<char>> = Vec::new();
    let mut pos: usize = 0;
    let n = text.len();
    assert(text@.subrange(0, n as int) =~= text@);
    while pos < n
        invariant
            pos <= n,
            n == text.len(),
            lines_of(text@) == rows(lines@) + lines_of(text@.subrange(pos as int, n as int)),
        decreases n - pos,
    {
        let ghost rest = text@.subrange(pos as int, n as int);
        let mut end: usize = pos;
        while end < n && text[end] != '\n'
            invariant
                pos <= end <= n,
                n == text.len(),
                forall|j: int| pos <= j < end ==> text@[j] != '\n',
            decreases n - end,
        {
            end += 1;
        }
        proof {
            assert(is_first_newline(rest, end - pos));
            lemma_first_newline(rest, end - pos);
        }
        if end == n {
            let line = slice_of(text, pos, n);
            let ghost before = rows(lines@);
            lines.push(line);
            proof {
                assert(rows(lines@) =~= before + seq![rest]);
                assert(lines_of(text@.subrange(n as int, n as int)) =~= Seq::<Seq<char>>::empty());
            }
            pos = n;
        } else {
            let stop: usize = if end > pos && text[end - 1] == '\r' {
                end - 1
            } else {
                end
            };
            let line = slice_of(text, pos, stop);
            let ghost before = rows(lines@);
            lines.push(line);
            proof {
                assert(rest.subrange(0, end - pos) =~= text@.subrange(pos as int, end as int));
                assert(line@ =~= strip_cr(rest.subrange(0, end - pos)));
                assert(rest.subrange(end - pos + 1, rest.len() as int) =~= text@.subrange(
                    end + 1,
                    n as int,
                ));
                assert(rows(lines@) =~= before + seq![line@]);
            }
            pos = end + 1;
        }
    }
    proof {
        assert(lines_of(text@.subrange(n as int, n as int)) =~= Seq::<Seq<char>>::empty());
    }
    lines
}

/// The lines from index `from` up to, not including, `to`, joined by line feeds.
pub fn join_range(lines: &Vec<Vec<char>>, from: usize, to: usize) -> (text: Vec<char>)
    requires
        from <= to <= lines.len(),
    ensures
        text@ == join_lines(rows(lines@).subrange(from as int, to as int)),
{
    let mut text: Vec<char> = Vec::new();
    let mut i: usize = from;
    while i < to
        invariant
            from <= i <= to <= lines.len(),
            text@ == join_lines(rows(lines@).subrange(from as int, i as int)),
        decreases to - i,
    {
        let ghost done = rows(lines@).subrange(from as int, i as int);
        let ghost next = rows(lines@).subrange(from as int, i + 1);
        proof {
            assert(next.drop_last() =~= done);
            assert(next.last() == lines@[i as int]@);
        }
        if i > from {
            text.push('\n');
        }
        let line = &lines[i];
        let mut j: usize = 0;
        let ghost head = text@;
        while j < line.len()
            invariant
                j <= line.len(),
                text@ == head + line@.take(j as int),
            decreases line.len() - j,
        {
            text.push(line[j]);
            j += 1;
        }
        proof {
            assert(line@.take(line@.len() as int) =~= line@);
            if i == from {
                assert(head =~= Seq::<char>::empty());
                assert(text@ =~= line@);
            }
        }
        i += 1;
    }
    text
}


/// What `str::to_lowercase` of the standard library returns for a text:
/// its Unicode lower-case form.
pub uninterp spec fn lowercase_of(text: Seq<char>) -> Seq<char>;

/// `str::to_lowercase` of the standard library. The result depends on the
/// text alone; it is named, not described.
pub assume_specification[ str::to_lowercase ](text: &str) -> (r: String)
    ensures
        r@ == lowercase_of(text@),
;

/// Whether `char::is_alphanumeric` of the standard library holds of a
/// character: the Unicode property Alphabetic, or a numeric category.
pub uninterp spec fn is_alphanumeric_char(c: char) -> bool;

/// `char::is_alphanumeric` of the standard library. The result depends on
/// the character alone; it is named, not described.
pub assume_specification[ char::is_alphanumeric ](c: char) -> (r: bool)
    ensures
        r == is_alphanumeric_char(c),
;

/// The lower-case form of a sequence of characters.
pub fn lowercase(text: &[char]) -> (r: Vec<char>)
    ensures
        r@ == lowercase_of(text@),
{
    let s = from_chars(text);
    let lower = s.as_str().to_lowercase();
    to_chars(lower.as_str())
}

/// The hexadecimal digit of a value below sixteen, in lower case.
pub open spec fn hex_digit(d: int) -> char {
    if d == 0 {
        '0'
    } else if d == 1 {
        '1'
    } else if d == 2 {
        '2'
    } else if d == 3 {
        '3'
    } else if d == 4 {
        '4'
    } else if d == 5 {
        '5'
    } else if d == 6 {
        '6'
    } else if d == 7 {
        '7'
    } else if d == 8 {
        '8'
    } else if d == 9 {
        '9'
    } else if d == 10 {
        'a'
    } else if d == 11 {
        'b'
    } else if d == 12 {
        'c'
    } else if d == 13 {
        'd'
    } else if d == 14 {
        'e'
    } else {
        'f'
    }
}

/// The last `width` hexadecimal digits of `value`, most significant first.
pub open spec fn hex_of(value: nat, width: nat) -> Seq<char>
    decreases width,
{
    if width == 0 {
        Seq::empty()
    } else {
        hex_of(value / 16, (width - 1) as nat).push(hex_digit((value % 16) as int))
    }
}

/// The decimal digits of `value`, without leading zeros.
pub open spec fn decimal_of(value: nat) -> Seq<char>
    decreases value,
{
    if value < 10 {
        seq![hex_digit(value as int)]
    } else {
        decimal_of(value / 10).push(hex_digit((value % 10) as int))
    }
}

fn digit_char(d: u64) -> (c: char)
    requires
        d < 16,
    ensures
        c == hex_digit(d as int),
{
    if d == 0 {
        '0'
    } else if d == 1 {
        '1'
    } else if d == 2 {
        '2'
    } else if d == 3 {
        '3'
    } else if d == 4 {
        '4'
    } else if d == 5 {
        '5'
    } else if d == 6 {
        '6'
    } else if d == 7 {
        '7'
    } else if d == 8 {
        '8'
    } else if d == 9 {
        '9'
    } else if d == 10 {
        'a'
    } else if d == 11 {
        'b'
    } else if d == 12 {
        'c'
    } else if d == 13 {
        'd'
    } else if d == 14 {
        'e'
    } else {
        'f'
    }
}

/// A 64-bit value as sixteen lower-case hexadecimal digits.
pub fn hex16(value: u64) -> (r: Vec<char>)
    ensures
        r@ == hex_of(value as nat, 16),
        r@.len() == 16,
{
    let mut r: Vec<char> = Vec::new();
    let mut rest: u64 = value;
    let mut i: usize = 0;
    while i < 16
        invariant
            i <= 16,
            r@.len() == i,
            hex_of(value as nat, 16) == hex_of(rest as nat, (16 - i) as nat) + r@,
        decreases 16 - i,
    {
        let d = digit_char(rest % 16);
        let ghost before = r@;
        r.insert(0, d);
        proof {
            assert(r@ =~= seq![d] + before);
            assert(hex_of(rest as nat, (16 - i) as nat) == hex_of(
                rest as nat / 16,
                (15 - i) as nat,
            ).push(d));
            assert(hex_of(rest as nat / 16, (15 - i) as nat).push(d) + before =~= hex_of(
                rest as nat / 16,
                (15 - i) as nat,
            ) + r@);
        }
        rest = rest / 16;
        i += 1;
    }
    proof {
        assert(hex_of(rest as nat, 0) + r@ =~= r@);
    }
    r
}

/// A number in decimal digits.
pub fn decimal(value: u64) -> (r: Vec<char>)
    ensures
        r@ == decimal_of(value as nat),
        r@.len() >= 1,
{
    let mut r: Vec<char> = Vec::new();
    let mut rest: u64 = value;
    while rest >= 10
        invariant
            decimal_of(value as nat) == decimal_of(rest as nat) + r@,
        decreases rest,
    {
        let d = digit_char(rest % 10);
        let ghost before = r@;
        r.insert(0, d);
        proof {
            assert(r@ =~= seq![d] + before);
            assert(decimal_of(rest as nat / 10).push(d) + before =~= decimal_of(rest as nat / 10)
                + r@);
        }
        rest = rest / 10;
    }
    let d = digit_char(rest);
    let ghost before = r@;
    r.insert(0, d);
    proof {
        assert(r@ =~= seq![d] + before);
        assert(decimal_of(rest as nat) + before =~= r@);
    }
    r
}


/// The lower-case form of an ASCII letter; any other character unchanged.
pub open spec fn ascii_lower(c: char) -> char {
    if 'A' <= c <= 'Z' {
        ((c as u8) + 32) as char
    } else {
        c
    }
}

/// Two texts are equal up to the case of their ASCII letters.
pub open spec fn same_ignoring_ascii_case(a: Seq<char>, b: Seq<char>) -> bool {
    a.len() == b.len() && forall|i: int| 0 <= i < a.len() ==> ascii_lower(a[i]) == ascii_lower(b[i])
}

fn ascii_lower_exec(c: char) -> (r: char)
    ensures
        r == ascii_lower(c),
{
    if 'A' <= c && c <= 'Z' {
        ((c as u8) + 32) as char
    } else {
        c
    }
}

/// Whether two texts are equal up to the case of their ASCII letters.
pub fn eq_ignore_ascii_case(a: &[char], b: &[char]) -> (r: bool)
    ensures
        r == same_ignoring_ascii_case(a@, b@),
{
    if a.len() != b.len() {
        return false;
    }
    let mut i: usize = 0;
    while i < a.len()
        invariant
            i <= a.len(),
            a.len() == b.len(),
            forall|j: int| 0 <= j < i ==> ascii_lower(a@[j]) == ascii_lower(b@[j]),
        decreases a.len() - i,
    {
        if ascii_lower_exec(a[i]) != ascii_lower_exec(b[i]) {
            return false;
        }
        i += 1;
    }
    true
}

} // verus!
