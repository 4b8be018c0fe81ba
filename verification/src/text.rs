//! Character-level helpers shared by the parsers.
//!
//! Strings are taken apart into `Vec<char>` so that every position is
//! addressable in constant time and every contract can speak of `Seq<char>`.

use vstd::prelude::*;

verus! {

/// Whether `c` is white space: one of the characters that Unicode lists
/// with the property `White_Space`.
pub open spec fn is_white_space(c: char) -> bool {
    let n = c as u32;
    ||| 0x09 <= n <= 0x0D
    ||| n == 0x20
    ||| n == 0x85
    ||| n == 0xA0
    ||| n == 0x1680
    ||| 0x2000 <= n <= 0x200A
    ||| n == 0x2028
    ||| n == 0x2029
    ||| n == 0x202F
    ||| n == 0x205F
    ||| n == 0x3000
}

/// `s` without its leading white space.
pub open spec fn trim_start(s: Seq<char>) -> Seq<char>
    decreases s.len(),
{
    if s.len() > 0 && is_white_space(s[0]) {
        trim_start(s.drop_first())
    } else {
        s
    }
}

/// `s` without its trailing white space.
pub open spec fn trim_end(s: Seq<char>) -> Seq<char>
    decreases s.len(),
{
    if s.len() > 0 && is_white_space(s.last()) {
        trim_end(s.drop_last())
    } else {
        s
    }
}

/// `s` without leading and trailing white space.
pub open spec fn trimmed(s: Seq<char>) -> Seq<char> {
    trim_end(trim_start(s))
}

/// `s` with every character equal to `a` or `b` left out.
pub open spec fn without_chars(s: Seq<char>, a: char, b: char) -> Seq<char>
    decreases s.len(),
{
    if s.len() == 0 {
        s
    } else if s.last() == a || s.last() == b {
        without_chars(s.drop_last(), a, b)
    } else {
        without_chars(s.drop_last(), a, b).push(s.last())
    }
}

/// `s` with every occurrence of the character `from` replaced by `to`.
pub open spec fn replace_char(s: Seq<char>, from: char, to: Seq<char>) -> Seq<char>
    decreases s.len(),
{
    if s.len() == 0 {
        s
    } else if s.last() == from {
        replace_char(s.drop_last(), from, to) + to
    } else {
        replace_char(s.drop_last(), from, to).push(s.last())
    }
}

/// Whether `needle` stands in `hay` at position `at`.
pub open spec fn occurs_at(hay: Seq<char>, needle: Seq<char>, at: int) -> bool {
    &&& 0 <= at
    &&& at + needle.len() <= hay.len()
    &&& hay.subrange(at, at + needle.len()) == needle
}

/// Whether `needle` stands somewhere in `hay`.
pub open spec fn has_substring(hay: Seq<char>, needle: Seq<char>) -> bool {
    exists|at: int| occurs_at(hay, needle, at)
}

/// `s` with every occurrence of `needle` replaced by `by`, scanning from
/// the left and resuming behind each occurrence.
pub open spec fn with_substring_replaced(s: Seq<char>, needle: Seq<char>, by: Seq<char>) -> Seq<
    char,
>
    recommends
        needle.len() > 0,
    decreases s.len(),
{
    if needle.len() == 0 || s.len() == 0 {
        s
    } else if occurs_at(s, needle, 0) {
        by + with_substring_replaced(s.skip(needle.len() as int), needle, by)
    } else {
        seq![s[0]] + with_substring_replaced(s.skip(1), needle, by)
    }
}

/// `s` with every occurrence of `needle` cut out, scanning from the left and
/// resuming behind each occurrence.
pub open spec fn without_substring(s: Seq<char>, needle: Seq<char>) -> Seq<char>
    recommends
        needle.len() > 0,
{
    with_substring_replaced(s, needle, Seq::<char>::empty())
}

/// The character that writes the digit `d`.
pub open spec fn digit(d: nat) -> char
    recommends
        d < 10,
{
    if d == 0 {
        '0'
    } else if d == 1 {
        '1'
    } else if d == 2 {
        '2'
    } else if d == 3 {
        '3'
    } else if d == 4 {
        '4'
    } else if d == 5 {
        '5'
    } else if d == 6 {
        '6'
    } else if d == 7 {
        '7'
    } else if d == 8 {
        '8'
    } else {
        '9'
    }
}

/// The number `n` written in decimal digits, without leading zeros.
pub open spec fn decimal(n: nat) -> Seq<char>
    decreases n,
{
    if n < 10 {
        seq![digit(n)]
    } else {
        decimal(n / 10).push(digit(n % 10))
    }
}

/// The number `n` written in decimal digits.
pub open spec fn decimal_u64(n: u64) -> Seq<char> {
    decimal(n as nat)
}

/// The index of the first `c` in `s`, or the length of `s` where it holds
/// none.
pub open spec fn index_of(s: Seq<char>, c: char) -> int
    decreases s.len(),
{
    if s.len() == 0 {
        0
    } else if s[0] == c {
        0
    } else {
        1 + index_of(s.drop_first(), c)
    }
}

/// What stands in front of the first `c` in `s`: all of `s` where it holds
/// none.
pub open spec fn before_first(s: Seq<char>, c: char) -> Seq<char> {
    s.take(index_of(s, c))
}

/// What stands behind the first `c` in `s`: nothing where it holds none.
pub open spec fn after_first(s: Seq<char>, c: char) -> Seq<char> {
    if index_of(s, c) < s.len() {
        s.skip(index_of(s, c) + 1)
    } else {
        Seq::<char>::empty()
    }
}

/// The lines of `s`: the pieces between its line feeds, of which a text
/// without line feed has one.
pub open spec fn lines(s: Seq<char>) -> Seq<Seq<char>>
    decreases s.len(),
{
    let at = index_of(s, '\n');
    if 0 <= at < s.len() {
        seq![s.take(at)] + lines(s.skip(at + 1))
    } else {
        seq![s]
    }
}

/// The texts of a list of character vectors.
pub open spec fn rows(list: Seq<Vec<char>>) -> Seq<Seq<char>> {
    list.map_values(|v: Vec<char>| v@)
}

/// `index_of` is the first index that holds the character.
pub proof fn lemma_index_of(s: Seq<char>, c: char)
    ensures
        0 <= index_of(s, c) <= s.len(),
        forall|k: int| 0 <= k < index_of(s, c) ==> s[k] != c,
        index_of(s, c) < s.len() ==> s[index_of(s, c)] == c,
    decreases s.len(),
{
    if s.len() > 0 && s[0] != c {
        let rest = s.drop_first();
        lemma_index_of(rest, c);
        assert forall|k: int| 0 <= k < index_of(s, c) implies s[k] != c by {
            if k > 0 {
                assert(s[k] == rest[k - 1]);
            }
        }
        if index_of(s, c) < s.len() {
            assert(s[index_of(s, c)] == rest[index_of(rest, c)]);
        }
    }
}

/// The first index that holds the character, with none of it in front, is
/// `index_of`.
pub proof fn lemma_index_of_is(s: Seq<char>, c: char, at: int)
    requires
        0 <= at <= s.len(),
        forall|k: int| 0 <= k < at ==> s[k] != c,
        at < s.len() ==> s[at] == c,
    ensures
        index_of(s, c) == at,
{
    lemma_index_of(s, c);
    let found = index_of(s, c);
    if found < at {
        assert(s[found] == c);
    } else if at < found {
        assert(s[at] != c);
    }
}

/// What is left of a text after its trailing white space is a front part
/// of it, which is empty or ends in a character that is no white space.
pub proof fn lemma_trim_end(s: Seq<char>)
    ensures
        trim_end(s).len() <= s.len(),
        trim_end(s) == s.take(trim_end(s).len() as int),
        trim_end(s).len() > 0 ==> !is_white_space(trim_end(s).last()),
    decreases s.len(),
{
    if s.len() > 0 && is_white_space(s.last()) {
        let front = s.drop_last();
        lemma_trim_end(front);
        assert(front.take(trim_end(front).len() as int) =~= s.take(trim_end(front).len() as int));
    } else {
        assert(s.take(s.len() as int) =~= s);
    }
}

/// What is left of a text after its leading white space is empty or starts
/// with a character that is no white space.
pub proof fn lemma_trim_start(s: Seq<char>)
    ensures
        trim_start(s).len() > 0 ==> !is_white_space(trim_start(s)[0]),
    decreases s.len(),
{
    if s.len() > 0 && is_white_space(s[0]) {
        lemma_trim_start(s.drop_first());
    }
}

/// A trimmed text is empty, or starts and ends with a character that is no
/// white space.
pub proof fn law_trimmed_is_clean(s: Seq<char>)
    ensures
        trimmed(s).len() > 0 ==> !is_white_space(trimmed(s)[0]) && !is_white_space(
            trimmed(s).last(),
        ),
{
    lemma_trim_start(s);
    lemma_trim_end(trim_start(s));
}

/// Trimming changes no text that neither starts nor ends with white space.
pub proof fn law_clean_text_stays(s: Seq<char>)
    requires
        s.len() > 0 ==> !is_white_space(s[0]) && !is_white_space(s.last()),
    ensures
        trimmed(s) == s,
{
}

/// Whether `c` is white space.
pub fn white_space(c: char) -> (r: bool)
    ensures
        r == is_white_space(c),
{
    let n = c as u32;
    (0x09 <= n && n <= 0x0D) || n == 0x20 || n == 0x85 || n == 0xA0 || n == 0x1680 || (0x2000
        <= n && n <= 0x200A) || n == 0x2028 || n == 0x2029 || n == 0x202F || n == 0x205F || n
        == 0x3000
}

/// `String::push` appends exactly one character at the end.
#[verifier::external_body]
fn push_char(s: &mut String, c: char)
    ensures
        final(s)@ == old(s)@.push(c),
{
    s.push(c)
}

/// The characters of `s`, in order.
pub fn chars_of(s: &str) -> (out: Vec<char>)
    ensures
        out@ == s@,
{
    let mut out: Vec<char> = Vec::new();
    let it = s.chars();
    proof {
        vstd::string::axiom_spec_iter(s);
    }
    for c in iter: it
        invariant
            iter.seq() == s@,
            out@ == iter.history@,
    {
        out.push(c);
    }
    assert(out@ =~= s@);
    out
}

/// The string spelled by `chars`.
pub fn string_of(chars: &Vec<char>) -> (out: String)
    ensures
        out@ == chars@,
{
    let mut out = String::new();
    let mut i: usize = 0;
    while i < chars.len()
        invariant
            i <= chars.len(),
            out@ == chars@.take(i as int),
        decreases chars.len() - i,
    {
        push_char(&mut out, chars[i]);
        proof {
            assert(chars@.take(i + 1) =~= chars@.take(i as int).push(chars@[i as int]));
        }
        i += 1;
    }
    proof {
        assert(chars@.take(chars.len() as int) =~= chars@);
    }
    out
}

/// Whether two strings spell the same text.
pub fn same_text(a: &str, b: &str) -> (r: bool)
    ensures
        r == (a@ == b@),
{
    let x = chars_of(a);
    let y = chars_of(b);
    if x.len() != y.len() {
        return false;
    }
    let mut i: usize = 0;
    while i < x.len()
        invariant
            i <= x.len(),
            x.len() == y.len(),
            x@ == a@,
            y@ == b@,
            forall|k: int| 0 <= k < i ==> x@[k] == y@[k],
        decreases x.len() - i,
    {
        if x[i] != y[i] {
            assert(a@[i as int] != b@[i as int]);
            return false;
        }
        i += 1;
    }
    assert(x@ =~= y@);
    true
}

/// Strips leading and trailing white space.
pub fn trim(chars: &Vec<char>) -> (out: Vec<char>)
    ensures
        out@ == trimmed(chars@),
{
    let n = chars.len();
    let mut start: usize = 0;
    proof {
        assert(chars@.skip(0) =~= chars@);
    }
    while start < n && white_space(chars[start])
        invariant
            start <= n,
            n == chars.len(),
            trim_start(chars@) == trim_start(chars@.skip(start as int)),
        decreases n - start,
    {
        proof {
            assert(chars@.skip(start as int).drop_first() =~= chars@.skip(start + 1));
        }
        start += 1;
    }
    proof {
        assert(trim_start(chars@) == chars@.skip(start as int));
        assert(chars@.skip(start as int) =~= chars@.subrange(start as int, n as int));
    }
    let mut end: usize = n;
    while end > start && white_space(chars[end - 1])
        invariant
            start <= end <= n,
            n == chars.len(),
            trimmed(chars@) == trim_end(chars@.subrange(start as int, end as int)),
        decreases end,
    {
        proof {
            assert(chars@.subrange(start as int, end as int).drop_last() =~= chars@.subrange(
                start as int,
                end - 1,
            ));
        }
        end -= 1;
    }
    let mut out: Vec<char> = Vec::new();
    let mut i: usize = start;
    while i < end
        invariant
            start <= i <= end <= n,
            n == chars.len(),
            out@ == chars@.subrange(start as int, i as int),
        decreases end - i,
    {
        out.push(chars[i]);
        proof {
            assert(chars@.subrange(start as int, i + 1) =~= chars@.subrange(
                start as int,
                i as int,
            ).push(chars@[i as int]));
        }
        i += 1;
    }
    out
}

/// Leaves out every character equal to `a` or `b`.
pub fn remove_chars(chars: &Vec<char>, a: char, b: char) -> (out: Vec<char>)
    ensures
        out@ == without_chars(chars@, a, b),
{
    let mut out: Vec<char> = Vec::new();
    let mut i: usize = 0;
    while i < chars.len()
        invariant
            i <= chars.len(),
            out@ == without_chars(chars@.take(i as int), a, b),
        decreases chars.len() - i,
    {
        proof {
            assert(chars@.take(i + 1).drop_last() =~= chars@.take(i as int));
        }
        let c = chars[i];
        if !(c == a || c == b) {
            out.push(c);
        }
        i += 1;
    }
    proof {
        assert(chars@.take(chars.len() as int) =~= chars@);
    }
    out
}

/// Replaces every `from` by the characters of `to`.
pub fn replace_each(chars: &Vec<char>, from: char, to: &Vec<char>) -> (out: Vec<char>)
    ensures
        out@ == replace_char(chars@, from, to@),
{
    let mut out: Vec<char> = Vec::new();
    let mut i: usize = 0;
    while i < chars.len()
        invariant
            i <= chars.len(),
            out@ == replace_char(chars@.take(i as int), from, to@),
        decreases chars.len() - i,
    {
        proof {
            assert(chars@.take(i + 1).drop_last() =~= chars@.take(i as int));
        }
        let c = chars[i];
        if c == from {
            let ghost before = out@;
            let mut j: usize = 0;
            while j < to.len()
                invariant
                    j <= to.len(),
                    out@ == before + to@.take(j as int),
                decreases to.len() - j,
            {
                out.push(to[j]);
                proof {
                    assert(to@.take(j + 1) =~= to@.take(j as int).push(to@[j as int]));
                    assert(out@ =~= before + to@.take(j + 1));
                }
                j += 1;
            }
            proof {
                assert(to@.take(to.len() as int) =~= to@);
            }
        } else {
            out.push(c);
        }
        i += 1;
    }
    proof {
        assert(chars@.take(chars.len() as int) =~= chars@);
    }
    out
}

/// Whether `needle` stands in `hay` at `at`.
pub fn matches_at(hay: &Vec<char>, needle: &Vec<char>, at: usize) -> (r: bool)
    ensures
        r == occurs_at(hay@, needle@, at as int),
{
    if needle.len() > hay.len() || at > hay.len() - needle.len() {
        return false;
    }
    let mut j: usize = 0;
    while j < needle.len()
        invariant
            j <= needle.len(),
            at + needle.len() <= hay.len(),
            forall|k: int| 0 <= k < j ==> hay@[at + k] == needle@[k],
        decreases needle.len() - j,
    {
        if hay[at + j] != needle[j] {
            proof {
                assert(hay@.subrange(at as int, at + needle.len())[j as int] == hay@[at + j]);
            }
            return false;
        }
        j += 1;
    }
    proof {
        assert(hay@.subrange(at as int, at + needle.len()) =~= needle@);
    }
    true
}

/// Whether `needle` stands somewhere in `hay`.
pub fn contains(hay: &Vec<char>, needle: &Vec<char>) -> (r: bool)
    ensures
        r == has_substring(hay@, needle@),
{
    if needle.len() > hay.len() {
        return false;
    }
    let last = hay.len() - needle.len();
    let mut at: usize = 0;
    while at < last
        invariant
            at <= last,
            last == hay.len() - needle.len(),
            forall|k: int| 0 <= k < at ==> !occurs_at(hay@, needle@, k),
        decreases last - at,
    {
        if matches_at(hay, needle, at) {
            return true;
        }
        at += 1;
    }
    matches_at(hay, needle, last)
}

/// Adds the characters of `more` at the end of `out`.
pub fn append_chars(out: &mut Vec<char>, more: &Vec<char>)
    ensures
        final(out)@ == old(out)@ + more@,
{
    let ghost before = out@;
    let mut i: usize = 0;
    proof {
        assert(out@ =~= before + more@.take(0));
    }
    while i < more.len()
        invariant
            i <= more.len(),
            out@ == before + more@.take(i as int),
        decreases more.len() - i,
    {
        out.push(more[i]);
        proof {
            assert(out@ =~= before + more@.take(i + 1));
        }
        i += 1;
    }
    proof {
        assert(more@.take(more.len() as int) =~= more@);
    }
}

/// Replaces every occurrence of `needle` in `chars` by `by`, left to right.
pub fn replace_substring(chars: &Vec<char>, needle: &Vec<char>, by: &Vec<char>) -> (out: Vec<char>)
    requires
        needle.len() > 0,
    ensures
        out@ == with_substring_replaced(chars@, needle@, by@),
{
    let mut out: Vec<char> = Vec::new();
    let mut i: usize = 0;
    proof {
        assert(chars@.skip(0) =~= chars@);
        assert(out@ + with_substring_replaced(chars@, needle@, by@) =~= with_substring_replaced(
            chars@,
            needle@,
            by@,
        ));
    }
    while i < chars.len()
        invariant
            i <= chars.len(),
            needle.len() > 0,
            out@ + with_substring_replaced(chars@.skip(i as int), needle@, by@)
                == with_substring_replaced(chars@, needle@, by@),
        decreases chars.len() - i,
    {
        let ghost rest = chars@.skip(i as int);
        let ghost before = out@;
        if matches_at(chars, needle, i) {
            proof {
                assert(chars@.subrange(i as int, i + needle.len()) =~= rest.subrange(
                    0,
                    needle.len() as int,
                ));
                assert(rest.skip(needle.len() as int) =~= chars@.skip(i + needle.len()));
            }
            append_chars(&mut out, by);
            proof {
                let tail = with_substring_replaced(rest.skip(needle.len() as int), needle@, by@);
                assert((before + by@) + tail =~= before + (by@ + tail));
            }
            i += needle.len();
        } else {
            proof {
                if i + needle.len() <= chars.len() {
                    assert(chars@.subrange(i as int, i + needle.len()) =~= rest.subrange(
                        0,
                        needle.len() as int,
                    ));
                }
                assert(rest.skip(1) =~= chars@.skip(i + 1));
                let tail = with_substring_replaced(rest.skip(1), needle@, by@);
                assert(before.push(chars@[i as int]) + tail =~= before + (seq![rest[0]] + tail));
            }
            out.push(chars[i]);
            i += 1;
        }
    }
    proof {
        assert(out@ + Seq::<char>::empty() =~= out@);
    }
    out
}

/// Cuts every occurrence of `needle` out of `chars`, left to right.
pub fn remove_substring(chars: &Vec<char>, needle: &Vec<char>) -> (out: Vec<char>)
    requires
        needle.len() > 0,
    ensures
        out@ == without_substring(chars@, needle@),
{
    let nothing: Vec<char> = Vec::new();
    replace_substring(chars, needle, &nothing)
}

/// The character that writes the digit `d`.
pub fn digit_char(d: u64) -> (c: char)
    requires
        d < 10,
    ensures
        c == digit(d as nat),
{
    if d == 0 {
        '0'
    } else if d == 1 {
        '1'
    } else if d == 2 {
        '2'
    } else if d == 3 {
        '3'
    } else if d == 4 {
        '4'
    } else if d == 5 {
        '5'
    } else if d == 6 {
        '6'
    } else if d == 7 {
        '7'
    } else if d == 8 {
        '8'
    } else {
        '9'
    }
}

/// The number `n` written in decimal digits, without leading zeros.
pub fn decimal_of(n: u64) -> (out: Vec<char>)
    ensures
        out@ == decimal_u64(n),
        out.len() > 0,
    decreases n,
{
    if n < 10 {
        let mut out: Vec<char> = Vec::new();
        out.push(digit_char(n));
        assert(out@ =~= seq![digit(n as nat)]);
        out
    } else {
        let mut out = decimal_of(n / 10);
        out.push(digit_char(n % 10));
        out
    }
}

/// The index of the first `c` in `chars` at or behind `from`, or the length
/// of `chars`.
pub fn find_char(chars: &Vec<char>, from: usize, c: char) -> (at: usize)
    requires
        from <= chars.len(),
    ensures
        at == from + index_of(chars@.skip(from as int), c),
        from <= at <= chars.len(),
{
    let mut i: usize = from;
    while i < chars.len() && chars[i] != c
        invariant
            from <= i <= chars.len(),
            forall|k: int| from <= k < i ==> chars@[k] != c,
        decreases chars.len() - i,
    {
        i += 1;
    }
    proof {
        let rest = chars@.skip(from as int);
        assert forall|k: int| 0 <= k < i - from implies rest[k] != c by {
            assert(rest[k] == chars@[from + k]);
        }
        lemma_index_of_is(rest, c, i - from);
    }
    i
}

/// The characters of `chars` from `from` up to `to`.
pub fn slice_of(chars: &Vec<char>, from: usize, to: usize) -> (out: Vec<char>)
    requires
        from <= to <= chars.len(),
    ensures
        out@ == chars@.subrange(from as int, to as int),
{
    let mut out: Vec<char> = Vec::new();
    let mut i: usize = from;
    while i < to
        invariant
            from <= i <= to <= chars.len(),
            out@ == chars@.subrange(from as int, i as int),
        decreases to - i,
    {
        out.push(chars[i]);
        proof {
            assert(chars@.subrange(from as int, i + 1) =~= chars@.subrange(
                from as int,
                i as int,
            ).push(chars@[i as int]));
        }
        i += 1;
    }
    out
}

/// Splits `chars` at its first `c`: what stands in front of it, and what
/// stands behind it.
pub fn split_first(chars: &Vec<char>, c: char) -> (r: (Vec<char>, Vec<char>))
    ensures
        r.0@ == before_first(chars@, c),
        r.1@ == after_first(chars@, c),
{
    let at = find_char(chars, 0, c);
    proof {
        assert(chars@.skip(0) =~= chars@);
    }
    let front = slice_of(chars, 0, at);
    proof {
        assert(chars@.subrange(0, at as int) =~= chars@.take(at as int));
    }
    if at < chars.len() {
        let back = slice_of(chars, at + 1, chars.len());
        proof {
            assert(chars@.subrange(at + 1, chars.len() as int) =~= chars@.skip(at + 1));
        }
        (front, back)
    } else {
        (front, Vec::new())
    }
}

/// The lines of `chars`.
pub fn split_lines(chars: &Vec<char>) -> (out: Vec<Vec<char>>)
    ensures
        rows(out@) == lines(chars@),
        out.len() > 0,
{
    let mut out: Vec<Vec<char>> = Vec::new();
    let mut from: usize = 0;
    proof {
        assert(chars@.skip(0) =~= chars@);
        assert(rows(out@) + lines(chars@) =~= lines(chars@));
    }
    loop
        invariant
            from <= chars.len(),
            rows(out@) + lines(chars@.skip(from as int)) == lines(chars@),
        decreases chars.len() - from,
    {
        let ghost rest = chars@.skip(from as int);
        let ghost before = rows(out@);
        let at = find_char(chars, from, '\n');
        let line = slice_of(chars, from, at);
        proof {
            assert(chars@.subrange(from as int, at as int) =~= rest.take(at - from));
        }
        out.push(line);
        proof {
            assert(rows(out@) =~= before.push(before_first(rest, '\n')));
        }
        if at >= chars.len() {
            proof {
                assert(rest.take(rest.len() as int) =~= rest);
                assert(before.push(rest) =~= before + seq![rest]);
            }
            return out;
        }
        proof {
            assert(rest.skip(at - from + 1) =~= chars@.skip(at + 1));
            assert(before.push(before_first(rest, '\n')) + lines(after_first(rest, '\n'))
                =~= before + (seq![before_first(rest, '\n')] + lines(after_first(rest, '\n'))));
        }
        from = at + 1;
    }
}

} // verus!
