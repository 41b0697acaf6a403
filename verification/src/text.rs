//! Text as sequences of characters: the splitting, trimming and searching
//! that the configuration and interface-listing parsers are built from.
//!
//! Every function here has a specification over `Seq<char>` that states the
//! behaviour of the corresponding `str` operation of the standard library
//! (`lines`, `trim`, `split_whitespace`, `split_once`, `contains`, ...).

use vstd::prelude::*;

verus! {

/// Unicode `White_Space` property, which `char::is_whitespace` tests.
pub open spec fn is_space(c: char) -> bool {
    let u = c as u32;
    ||| (0x9 <= u && u <= 0xd)
    ||| u == 0x20
    ||| u == 0x85
    ||| u == 0xa0
    ||| u == 0x1680
    ||| (0x2000 <= u && u <= 0x200a)
    ||| u == 0x2028
    ||| u == 0x2029
    ||| u == 0x202f
    ||| u == 0x205f
    ||| u == 0x3000
}

/// Whether `c` is white space in the sense of `char::is_whitespace`.
pub fn char_is_space(c: char) -> (b: bool)
    ensures
        b == is_space(c),
{
    let u = c as u32;
    (0x9 <= u && u <= 0xd) || u == 0x20 || u == 0x85 || u == 0xa0 || u == 0x1680 || (0x2000
        <= u && u <= 0x200a) || u == 0x2028 || u == 0x2029 || u == 0x202f || u == 0x205f || u
        == 0x3000
}

/// Position of the first `c` in `s`, or `s.len()` when there is none.
pub open spec fn index_of(s: Seq<char>, c: char) -> nat
    decreases s.len(),
{
    if s.len() == 0 {
        0
    } else if s[0] == c {
        0
    } else {
        1 + index_of(s.drop_first(), c)
    }
}

/// Position of the first white-space character of `s`, or `s.len()`.
pub open spec fn index_of_space(s: Seq<char>) -> nat
    decreases s.len(),
{
    if s.len() == 0 {
        0
    } else if is_space(s[0]) {
        0
    } else {
        1 + index_of_space(s.drop_first())
    }
}

/// `index_of` is the first position holding `c`.
pub proof fn lemma_index_of(s: Seq<char>, c: char, n: int)
    requires
        0 <= n <= s.len(),
        forall|i: int| 0 <= i < n ==> s[i] != c,
        n < s.len() ==> s[n] == c,
    ensures
        index_of(s, c) == n,
    decreases n,
{
    if n > 0 {
        assert forall|i: int| 0 <= i < n - 1 implies s.drop_first()[i] != c by {
            assert(s.drop_first()[i] == s[i + 1]);
        }
        lemma_index_of(s.drop_first(), c, n - 1);
    }
}

/// `index_of_space` is the first position holding white space.
pub proof fn lemma_index_of_space(s: Seq<char>, n: int)
    requires
        0 <= n <= s.len(),
        forall|i: int| 0 <= i < n ==> !is_space(s[i]),
        n < s.len() ==> is_space(s[n]),
    ensures
        index_of_space(s) == n,
    decreases n,
{
    if n > 0 {
        assert forall|i: int| 0 <= i < n - 1 implies !is_space(s.drop_first()[i]) by {
            assert(s.drop_first()[i] == s[i + 1]);
        }
        lemma_index_of_space(s.drop_first(), n - 1);
    }
}

/// `index_of_space` stays within `s`.
pub proof fn lemma_index_of_space_bound(s: Seq<char>)
    ensures
        index_of_space(s) <= s.len(),
    decreases s.len(),
{
    if s.len() > 0 {
        lemma_index_of_space_bound(s.drop_first());
    }
}

/// A line without the carriage return that may end it.
pub open spec fn strip_cr(line: Seq<char>) -> Seq<char> {
    if line.len() > 0 && line.last() == '\r' {
        line.drop_last()
    } else {
        line
    }
}

/// The lines of `s` as `str::lines` gives them: split after each `'\n'`,
/// each line without its `"\n"` or `"\r\n"`; no empty line after a final
/// `'\n'`.
pub open spec fn lines(s: Seq<char>) -> Seq<Seq<char>>
    decreases s.len(),
{
    if s.len() == 0 {
        seq![]
    } else {
        let n = index_of(s, '\n');
        if n >= s.len() {
            seq![s]
        } else {
            seq![strip_cr(s.take(n as int))] + lines(s.skip((n + 1) as int))
        }
    }
}

/// `s` without its leading white space.
pub open spec fn trim_start(s: Seq<char>) -> Seq<char>
    decreases s.len(),
{
    if s.len() > 0 && is_space(s[0]) {
        trim_start(s.drop_first())
    } else {
        s
    }
}

/// `s` without its trailing white space.
pub open spec fn trim_end(s: Seq<char>) -> Seq<char>
    decreases s.len(),
{
    if s.len() > 0 && is_space(s.last()) {
        trim_end(s.drop_last())
    } else {
        s
    }
}

/// `s` without leading and trailing white space, as `str::trim` gives it.
pub open spec fn trim(s: Seq<char>) -> Seq<char> {
    trim_end(trim_start(s))
}

/// The character sequences held by a vector of character vectors.
pub open spec fn views(v: Seq<Vec<char>>) -> Seq<Seq<char>> {
    v.map_values(|l: Vec<char>| l@)
}

/// Characters from position `a` to `b` of `s`.
pub fn copy_range(s: &Vec<char>, a: usize, b: usize) -> (out: Vec<char>)
    requires
        a <= b <= s.len(),
    ensures
        out@ == s@.subrange(a as int, b as int),
{
    let mut out: Vec<char> = Vec::new();
    let mut i = a;
    while i < b
        invariant
            a <= i <= b <= s.len(),
            out@ == s@.subrange(a as int, i as int),
        decreases b - i,
    {
        out.push(s[i]);
        i = i + 1;
        assert(out@ =~= s@.subrange(a as int, i as int));
    }
    out
}

/// The characters of `s`, in order.
pub fn chars_of(s: &str) -> (out: Vec<char>)
    ensures
        out@ == s@,
{
    let mut out: Vec<char> = Vec::new();
    for c in it: s.chars()
        invariant
            out@ == it.seq().take(it.index() as int),
            it.seq() == s@,
    {
        out.push(c);
    }
    out
}

/// Position of the first `c` in `s` at or after `start`, or `s.len()`.
pub fn find_char(s: &Vec<char>, start: usize, c: char) -> (r: usize)
    requires
        start <= s.len(),
    ensures
        r == start + index_of(s@.skip(start as int), c),
        start <= r <= s.len(),
        forall|i: int| start <= i < r ==> s@[i] != c,
        r < s.len() ==> s@[r as int] == c,
{
    let mut i = start;
    while i < s.len() && s[i] != c
        invariant
            start <= i <= s.len(),
            forall|j: int| start <= j < i ==> s@[j] != c,
        decreases s.len() - i,
    {
        i = i + 1;
    }
    proof {
        let t = s@.skip(start as int);
        assert forall|j: int| 0 <= j < i - start implies t[j] != c by {
            assert(t[j] == s@[start + j]);
        }
        if i < s.len() {
            assert(t[i - start] == s@[i as int]);
        }
        lemma_index_of(t, c, i - start);
    }
    i
}

/// Position of the first white space in `s` at or after `start`, or `s.len()`.
pub fn find_space(s: &Vec<char>, start: usize) -> (r: usize)
    requires
        start <= s.len(),
    ensures
        r == start + index_of_space(s@.skip(start as int)),
        start <= r <= s.len(),
        forall|i: int| start <= i < r ==> !is_space(s@[i]),
        r < s.len() ==> is_space(s@[r as int]),
{
    let mut i = start;
    while i < s.len() && !char_is_space(s[i])
        invariant
            start <= i <= s.len(),
            forall|j: int| start <= j < i ==> !is_space(s@[j]),
        decreases s.len() - i,
    {
        i = i + 1;
    }
    proof {
        let t = s@.skip(start as int);
        assert forall|j: int| 0 <= j < i - start implies !is_space(t[j]) by {
            assert(t[j] == s@[start + j]);
        }
        if i < s.len() {
            assert(t[i - start] == s@[i as int]);
        }
        lemma_index_of_space(t, i - start);
    }
    i
}

/// `trim_start` drops exactly the leading run of white space.
pub proof fn lemma_trim_start(s: Seq<char>, n: int)
    requires
        0 <= n <= s.len(),
        forall|i: int| 0 <= i < n ==> is_space(s[i]),
        n < s.len() ==> !is_space(s[n]),
    ensures
        trim_start(s) == s.skip(n),
    decreases n,
{
    if n == 0 {
        assert(s.skip(0) =~= s);
    } else {
        assert forall|i: int| 0 <= i < n - 1 implies is_space(s.drop_first()[i]) by {
            assert(s.drop_first()[i] == s[i + 1]);
        }
        if n < s.len() {
            assert(s.drop_first()[n - 1] == s[n]);
        }
        lemma_trim_start(s.drop_first(), n - 1);
        assert(s.drop_first().skip(n - 1) =~= s.skip(n));
    }
}

/// `trim_end` drops exactly the trailing run of white space.
pub proof fn lemma_trim_end(s: Seq<char>, n: int)
    requires
        0 <= n <= s.len(),
        forall|i: int| n <= i < s.len() ==> is_space(s[i]),
        n > 0 ==> !is_space(s[n - 1]),
    ensures
        trim_end(s) == s.take(n),
    decreases s.len() - n,
{
    if n == s.len() {
        assert(s.take(n) =~= s);
    } else {
        assert forall|i: int| n <= i < s.len() - 1 implies is_space(s.drop_last()[i]) by {
            assert(s.drop_last()[i] == s[i]);
        }
        if n > 0 {
            assert(s.drop_last()[n - 1] == s[n - 1]);
        }
        lemma_trim_end(s.drop_last(), n);
        assert(s.drop_last().take(n) =~= s.take(n));
    }
}

/// `s` without leading and trailing white space (`str::trim`).
pub fn trim_chars(s: &Vec<char>) -> (out: Vec<char>)
    ensures
        out@ == trim(s@),
{
    let mut a: usize = 0;
    while a < s.len() && char_is_space(s[a])
        invariant
            a <= s.len(),
            forall|j: int| 0 <= j < a ==> is_space(s@[j]),
        decreases s.len() - a,
    {
        a = a + 1;
    }
    let mut b: usize = s.len();
    while b > a && char_is_space(s[b - 1])
        invariant
            a <= b <= s.len(),
            forall|j: int| b <= j < s.len() ==> is_space(s@[j]),
        decreases b,
    {
        b = b - 1;
    }
    proof {
        lemma_trim_start(s@, a as int);
        let t = s@.skip(a as int);
        assert forall|j: int| b - a <= j < t.len() implies is_space(t[j]) by {
            assert(t[j] == s@[a + j]);
        }
        if b > a {
            assert(t[b - a - 1] == s@[b - 1]);
        }
        lemma_trim_end(t, b - a);
        assert(t.take(b - a) =~= s@.subrange(a as int, b as int));
    }
    copy_range(s, a, b)
}

/// The lines of `s`, as `str::lines` gives them.
pub fn split_lines(s: &Vec<char>) -> (out: Vec<Vec<char>>)
    ensures
        views(out@) == lines(s@),
{
    let mut out: Vec<Vec<char>> = Vec::new();
    let mut p: usize = 0;
    assert(s@.skip(0) =~= s@);
    while p < s.len()
        invariant
            p <= s.len(),
            views(out@) + lines(s@.skip(p as int)) == lines(s@),
        decreases s.len() - p,
    {
        let t = Ghost(s@.skip(p as int));
        let n = find_char(s, p, '\n');
        let ghost old_out = views(out@);
        if n == s.len() {
            let line = copy_range(s, p, n);
            assert(line@ =~= t@);
            out.push(line);
            assert(views(out@) =~= old_out.push(t@));
            assert(lines(t@) == seq![t@]);
            p = n;
            assert(lines(s@.skip(p as int)) =~= Seq::<Seq<char>>::empty());
            assert(views(out@) + lines(s@.skip(p as int)) =~= old_out + lines(t@));
        } else {
            let mut line = copy_range(s, p, n);
            let ghost raw = line@;
            if line.len() > 0 && line[line.len() - 1] == '\r' {
                line.pop();
                assert(line@ =~= raw.drop_last());
            }
            assert(raw =~= t@.take(n - p));
            assert(line@ == strip_cr(t@.take(n - p)));
            out.push(line);
            assert(views(out@) =~= old_out.push(line@));
            assert(t@.skip(n - p + 1) =~= s@.skip(n + 1));
            p = n + 1;
            assert(lines(t@) == seq![line@] + lines(s@.skip(p as int)));
            assert(views(out@) + lines(s@.skip(p as int)) =~= old_out + lines(t@));
        }
    }
    assert(lines(s@.skip(p as int)) =~= Seq::<Seq<char>>::empty());
    assert(views(out@) + lines(s@.skip(p as int)) =~= views(out@));
    out
}


/// The white-space separated words of `s`, as `str::split_whitespace` gives them.
pub open spec fn words(s: Seq<char>) -> Seq<Seq<char>>
    decreases s.len(),
{
    if s.len() == 0 {
        seq![]
    } else if is_space(s[0]) {
        words(s.drop_first())
    } else {
        let n = index_of_space(s);
        proof {
            assert(n == 1 + index_of_space(s.drop_first()));
            lemma_index_of_space_bound(s);
        }
        seq![s.take(n as int)] + words(s.skip(n as int))
    }
}

/// The words of `s`, as `str::split_whitespace` gives them.
pub fn split_words(s: &Vec<char>) -> (out: Vec<Vec<char>>)
    ensures
        views(out@) == words(s@),
{
    let mut out: Vec<Vec<char>> = Vec::new();
    let mut p: usize = 0;
    assert(s@.skip(0) =~= s@);
    while p < s.len()
        invariant
            p <= s.len(),
            views(out@) + words(s@.skip(p as int)) == words(s@),
        decreases s.len() - p,
    {
        let t = Ghost(s@.skip(p as int));
        let ghost old_out = views(out@);
        if char_is_space(s[p]) {
            assert(t@.drop_first() =~= s@.skip(p + 1));
            p = p + 1;
        } else {
            let n = find_space(s, p);
            let word = copy_range(s, p, n);
            assert(word@ =~= t@.take(n - p));
            out.push(word);
            assert(views(out@) =~= old_out.push(word@));
            assert(t@.skip(n - p) =~= s@.skip(n as int));
            p = n;
            assert(words(t@) == seq![word@] + words(s@.skip(p as int)));
            assert(views(out@) + words(s@.skip(p as int)) =~= old_out + words(t@));
        }
    }
    assert(words(s@.skip(p as int)) =~= Seq::<Seq<char>>::empty());
    assert(views(out@) + words(s@.skip(p as int)) =~= views(out@));
    out
}

/// `s` splits at its first `c` into the part before and the part after.
pub open spec fn split_once(s: Seq<char>, c: char) -> Option<(Seq<char>, Seq<char>)> {
    let n = index_of(s, c);
    if n < s.len() {
        Some((s.take(n as int), s.skip((n + 1) as int)))
    } else {
        None
    }
}

/// The part of `s` before its first `c` (all of `s` if there is none): the
/// first item of `str::split`.
pub open spec fn before(s: Seq<char>, c: char) -> Seq<char> {
    s.take(index_of(s, c) as int)
}

/// `str::split_once` on a single character.
pub fn split_once_chars(s: &Vec<char>, c: char) -> (out: Option<(Vec<char>, Vec<char>)>)
    ensures
        match out {
            Some((a, b)) => split_once(s@, c) == Some((a@, b@)),
            None => split_once(s@, c) is None,
        },
{
    let n = find_char(s, 0, c);
    assert(s@.skip(0) =~= s@);
    if n < s.len() {
        let a = copy_range(s, 0, n);
        let b = copy_range(s, n + 1, s.len());
        assert(a@ =~= s@.take(n as int));
        assert(b@ =~= s@.skip(n + 1));
        Some((a, b))
    } else {
        None
    }
}

/// The part of `s` before its first `c`.
pub fn before_chars(s: &Vec<char>, c: char) -> (out: Vec<char>)
    ensures
        out@ == before(s@, c),
{
    let n = find_char(s, 0, c);
    assert(s@.skip(0) =~= s@);
    let out = copy_range(s, 0, n);
    assert(out@ =~= s@.take(n as int));
    out
}

/// `needle` stands in `s` at position `i`.
pub open spec fn occurs_at(s: Seq<char>, needle: Seq<char>, i: int) -> bool {
    0 <= i && i + needle.len() <= s.len() && s.subrange(i, i + needle.len()) == needle
}

/// `needle` stands somewhere in `s` (`str::contains`).
pub open spec fn contains(s: Seq<char>, needle: Seq<char>) -> bool {
    exists|i: int| occurs_at(s, needle, i)
}

/// `s` begins with `p` (`str::starts_with`).
pub open spec fn starts_with(s: Seq<char>, p: Seq<char>) -> bool {
    p.len() <= s.len() && s.take(p.len() as int) == p
}

/// `s` ends with `p` (`str::ends_with`).
pub open spec fn ends_with(s: Seq<char>, p: Seq<char>) -> bool {
    p.len() <= s.len() && s.skip(s.len() - p.len()) == p
}

/// Whether `needle` stands in `s` at position `i`.
pub fn occurs_at_chars(s: &Vec<char>, needle: &Vec<char>, i: usize) -> (b: bool)
    ensures
        b == occurs_at(s@, needle@, i as int),
{
    if needle.len() > s.len() || i > s.len() - needle.len() {
        return false;
    }
    let mut k: usize = 0;
    while k < needle.len()
        invariant
            i + needle.len() <= s.len(),
            k <= needle.len(),
            forall|j: int| 0 <= j < k ==> s@[i + j] == needle@[j],
        decreases needle.len() - k,
    {
        if s[i + k] != needle[k] {
            assert(s@.subrange(i as int, i + needle.len())[k as int] != needle@[k as int]);
            return false;
        }
        k = k + 1;
    }
    assert(s@.subrange(i as int, i + needle.len()) =~= needle@);
    true
}

/// Whether `needle` stands somewhere in `s` (`str::contains`).
pub fn contains_chars(s: &Vec<char>, needle: &Vec<char>) -> (b: bool)
    ensures
        b == contains(s@, needle@),
{
    if needle.len() > s.len() {
        return false;
    }
    let last = s.len() - needle.len();
    let mut i: usize = 0;
    loop
        invariant
            last == s.len() - needle.len(),
            i <= last,
            forall|j: int| 0 <= j < i ==> !occurs_at(s@, needle@, j),
        decreases last - i,
    {
        if occurs_at_chars(s, needle, i) {
            return true;
        }
        if i == last {
            return false;
        }
        i = i + 1;
    }
}

/// Whether `s` begins with `p` (`str::starts_with`).
pub fn starts_with_chars(s: &Vec<char>, p: &Vec<char>) -> (b: bool)
    ensures
        b == starts_with(s@, p@),
{
    let b = occurs_at_chars(s, p, 0);
    assert(b == starts_with(s@, p@)) by {
        assert(s@.take(p@.len() as int) =~= s@.subrange(0, p@.len() as int));
    }
    b
}

/// Whether `s` ends with `p` (`str::ends_with`).
pub fn ends_with_chars(s: &Vec<char>, p: &Vec<char>) -> (b: bool)
    ensures
        b == ends_with(s@, p@),
{
    if p.len() > s.len() {
        return false;
    }
    let b = occurs_at_chars(s, p, s.len() - p.len());
    assert(b == ends_with(s@, p@)) by {
        assert(s@.skip(s@.len() - p@.len()) =~= s@.subrange(s@.len() - p@.len(), s@.len() as int));
    }
    b
}

/// Whether two character vectors hold the same characters.
pub fn same_chars(a: &Vec<char>, b: &Vec<char>) -> (r: bool)
    ensures
        r == (a@ == b@),
{
    if a.len() != b.len() {
        return false;
    }
    let mut k: usize = 0;
    while k < a.len()
        invariant
            a.len() == b.len(),
            k <= a.len(),
            forall|j: int| 0 <= j < k ==> a@[j] == b@[j],
        decreases a.len() - k,
    {
        if a[k] != b[k] {
            return false;
        }
        k = k + 1;
    }
    assert(a@ =~= b@);
    true
}

/// The pieces of `s` between occurrences of `c`, as `str::split` gives them.
pub open spec fn fields(s: Seq<char>, c: char) -> Seq<Seq<char>>
    decreases s.len(),
{
    let n = index_of(s, c);
    if n >= s.len() {
        seq![s]
    } else {
        seq![s.take(n as int)] + fields(s.skip((n + 1) as int), c)
    }
}

/// Splitting at a first `c` that follows a `c`-free part `a`.
pub proof fn lemma_fields_cons(a: Seq<char>, c: char, b: Seq<char>)
    requires
        !a.contains(c),
    ensures
        fields(a + seq![c] + b, c) == seq![a] + fields(b, c),
{
    let s = a + seq![c] + b;
    assert forall|i: int| 0 <= i < a.len() implies s[i] != c by {
        assert(s[i] == a[i]);
    }
    lemma_index_of(s, c, a.len() as int);
    assert(s.take(a.len() as int) =~= a);
    assert(s.skip(a.len() + 1 as int) =~= b);
}

/// A `c`-free text is a single piece.
pub proof fn lemma_fields_single(a: Seq<char>, c: char)
    requires
        !a.contains(c),
    ensures
        fields(a, c) == seq![a],
{
    assert forall|i: int| 0 <= i < a.len() implies a[i] != c by {
        if a[i] == c {
            assert(a.contains(c));
        }
    }
    lemma_index_of(a, c, a.len() as int);
}

/// The pieces of `s` between occurrences of `c` (`str::split`).
pub fn split_fields(s: &Vec<char>, c: char) -> (out: Vec<Vec<char>>)
    ensures
        views(out@) == fields(s@, c),
        out@.len() >= 1,
{
    let mut out: Vec<Vec<char>> = Vec::new();
    let mut p: usize = 0;
    assert(s@.skip(0) =~= s@);
    loop
        invariant
            p <= s.len(),
            views(out@) + fields(s@.skip(p as int), c) == fields(s@, c),
        decreases s.len() - p,
    {
        let t = Ghost(s@.skip(p as int));
        let ghost old_out = views(out@);
        let n = find_char(s, p, c);
        let piece = copy_range(s, p, n);
        assert(piece@ =~= t@.take(n - p));
        out.push(piece);
        assert(views(out@) =~= old_out.push(piece@));
        if n == s.len() {
            assert(t@.take(n - p) =~= t@);
            assert(fields(t@, c) == seq![t@]);
            assert(views(out@) =~= old_out + fields(t@, c));
            return out;
        }
        assert(t@.skip(n - p + 1) =~= s@.skip(n + 1));
        p = n + 1;
        assert(fields(t@, c) == seq![piece@] + fields(s@.skip(p as int), c));
        assert(views(out@) + fields(s@.skip(p as int), c) =~= old_out + fields(t@, c));
    }
}

/// A line ended by `'\n'` is the first of the lines.
pub proof fn lemma_lines_cons(a: Seq<char>, b: Seq<char>)
    requires
        !a.contains('\n'),
    ensures
        lines(a + seq!['\n'] + b) == seq![strip_cr(a)] + lines(b),
{
    let s = a + seq!['\n'] + b;
    assert forall|i: int| 0 <= i < a.len() implies s[i] != '\n' by {
        assert(s[i] == a[i]);
        if a[i] == '\n' {
            assert(a.contains('\n'));
        }
    }
    lemma_index_of(s, '\n', a.len() as int);
    assert(s.take(a.len() as int) =~= a);
    assert(s.skip(a.len() + 1 as int) =~= b);
}

/// A text with no white space at either end is its own trim.
pub proof fn lemma_trim_unchanged(s: Seq<char>)
    requires
        s.len() > 0 ==> !is_space(s[0]) && !is_space(s.last()),
    ensures
        trim(s) == s,
{
    lemma_trim_start(s, 0);
    assert(s.skip(0) =~= s);
    lemma_trim_end(s, s.len() as int);
    assert(s.take(s.len() as int) =~= s);
}

/// `trim_start` gives a suffix, `trim_end` a prefix.
pub proof fn lemma_trim_parts(s: Seq<char>)
    ensures
        trim_start(s).len() <= s.len(),
        trim_start(s).len() == s.len() ==> trim_start(s) == s,
        trim_end(s).len() <= s.len(),
        trim_end(s).len() == s.len() ==> trim_end(s) == s,
        trim_start(s).len() == s.len() && s.len() > 0 ==> !is_space(s[0]),
        trim_end(s).len() == s.len() && s.len() > 0 ==> !is_space(s.last()),
    decreases s.len(),
{
    if s.len() > 0 {
        lemma_trim_parts(s.drop_first());
        lemma_trim_parts(s.drop_last());
    }
}

/// A text that is its own trim has no white space at either end.
pub proof fn lemma_trimmed_ends(s: Seq<char>)
    requires
        trim(s) == s,
        s.len() > 0,
    ensures
        !is_space(s[0]),
        !is_space(s.last()),
{
    let t = trim_start(s);
    lemma_trim_parts(s);
    lemma_trim_parts(t);
    assert(t.len() == s.len());
    assert(t == s);
}

/// What `trim_start` leaves does not begin with white space.
proof fn lemma_trim_start_clean(s: Seq<char>)
    ensures
        trim_start(s).len() > 0 ==> !is_space(trim_start(s)[0]),
    decreases s.len(),
{
    if s.len() > 0 && is_space(s[0]) {
        lemma_trim_start_clean(s.drop_first());
    }
}

/// What `trim_end` leaves does not end with white space, and begins as `s` does.
proof fn lemma_trim_end_clean(s: Seq<char>)
    ensures
        trim_end(s).len() > 0 ==> !is_space(trim_end(s).last()) && trim_end(s)[0] == s[0],
    decreases s.len(),
{
    if s.len() > 0 && is_space(s.last()) {
        lemma_trim_end_clean(s.drop_last());
        if trim_end(s).len() > 0 {
            assert(s.drop_last()[0] == s[0]);
        }
    }
}

/// A trimmed text has no white space at either end.
pub proof fn lemma_trim_clean(s: Seq<char>)
    ensures
        trim(s).len() > 0 ==> !is_space(trim(s)[0]) && !is_space(trim(s).last()),
{
    lemma_trim_start_clean(s);
    lemma_trim_end_clean(trim_start(s));
}

/// Splitting at a first `c` that follows a `c`-free part.
pub proof fn lemma_split_once_cons(a: Seq<char>, c: char, b: Seq<char>)
    requires
        !a.contains(c),
    ensures
        split_once(a + seq![c] + b, c) == Some((a, b)),
{
    let s = a + seq![c] + b;
    assert forall|i: int| 0 <= i < a.len() implies s[i] != c by {
        assert(s[i] == a[i]);
        if a[i] == c {
            assert(a.contains(c));
        }
    }
    lemma_index_of(s, c, a.len() as int);
    assert(s.take(a.len() as int) =~= a);
    assert(s.skip(a.len() + 1 as int) =~= b);
}

/// `s` without the run of `c` at its end (`str::trim_end_matches`).
pub open spec fn strip_trailing(s: Seq<char>, c: char) -> Seq<char>
    decreases s.len(),
{
    if s.len() > 0 && s.last() == c {
        strip_trailing(s.drop_last(), c)
    } else {
        s
    }
}

/// `s` without the run of `c` at its end (`str::trim_end_matches`).
pub fn strip_trailing_chars(s: &Vec<char>, c: char) -> (out: Vec<char>)
    ensures
        out@ == strip_trailing(s@, c),
{
    let mut n = s.len();
    assert(s@.take(n as int) =~= s@);
    while n > 0 && s[n - 1] == c
        invariant
            n <= s.len(),
            strip_trailing(s@, c) == strip_trailing(s@.take(n as int), c),
        decreases n,
    {
        proof {
            assert(s@.take(n as int).drop_last() =~= s@.take(n - 1));
        }
        n = n - 1;
    }
    let out = copy_range(s, 0, n);
    assert(out@ =~= s@.take(n as int));
    out
}

/// `String::from_iter` over the characters of `v`: the contract claims that
/// the string holds exactly those characters, in order, as the standard
/// library documents for collecting `char`s into a `String`.
#[verifier::external_body]
pub(crate) fn string_of(v: &Vec<char>) -> (s: String)
    ensures
        s@ == v@,
{
    String::from_iter(v.iter())
}

} // verus!
