//! Text as sequences of characters: the model every other module states its
//! contracts over, and the executable routines that compute it.

use vstd::prelude::*;

verus! {

/// `String::push` appends one character.
pub assume_specification[ String::push ](s: &mut String, ch: char)
    ensures
        final(s)@ == old(s)@.push(ch),
;

/// The views of a vector of texts, in order.
pub open spec fn views(v: Seq<Vec<char>>) -> Seq<Seq<char>> {
    Seq::new(v.len(), |i: int| v[i]@)
}

/// The views of a vector of strings, in order.
pub open spec fn str_views(v: Seq<String>) -> Seq<Seq<char>> {
    Seq::new(v.len(), |i: int| v[i]@)
}

/// The view of an optional string.
pub open spec fn opt_text(s: Option<String>) -> Option<Seq<char>> {
    match s {
        Some(text) => Some(text@),
        None => None,
    }
}

/// The view of an optional string slice.
pub open spec fn opt_str(s: Option<&str>) -> Option<Seq<char>> {
    match s {
        Some(text) => Some(text@),
        None => None,
    }
}

/// The pieces of `s` that lie between the occurrences of `sep`. There is
/// always at least one piece; `n` separators give `n + 1` pieces.
pub open spec fn split(s: Seq<char>, sep: char) -> Seq<Seq<char>>
    decreases s.len(),
{
    if s.len() == 0 {
        seq![Seq::<char>::empty()]
    } else {
        let init = split(s.drop_last(), sep);
        if s.last() == sep {
            init.push(Seq::<char>::empty())
        } else {
            init.drop_last().push(init.last().push(s.last()))
        }
    }
}

/// The pieces of `parts` written one after another with `sep` between them.
pub open spec fn join(parts: Seq<Seq<char>>, sep: Seq<char>) -> Seq<char>
    decreases parts.len(),
{
    if parts.len() == 0 {
        Seq::<char>::empty()
    } else if parts.len() == 1 {
        parts[0]
    } else {
        join(parts.drop_last(), sep) + sep + parts.last()
    }
}

/// `p` is found in `s` at position `i`.
pub open spec fn occurs_at(s: Seq<char>, p: Seq<char>, i: int) -> bool {
    0 <= i && i + p.len() <= s.len() && s.subrange(i, i + p.len()) == p
}

/// `s` begins with `p`.
pub open spec fn starts_with(s: Seq<char>, p: Seq<char>) -> bool {
    occurs_at(s, p, 0)
}

/// `s` ends with `p`.
pub open spec fn ends_with(s: Seq<char>, p: Seq<char>) -> bool {
    occurs_at(s, p, s.len() - p.len())
}

/// `p` is found somewhere in `s`.
pub open spec fn contains_text(s: Seq<char>, p: Seq<char>) -> bool {
    exists|i: int| occurs_at(s, p, i)
}

/// `s` with every occurrence of `pat` exchanged for `with`, found from left
/// to right without overlap. An empty `pat` is found before every character
/// and at the end.
pub open spec fn replace(s: Seq<char>, pat: Seq<char>, with: Seq<char>) -> Seq<char>
    decreases s.len(),
{
    if pat.len() == 0 {
        if s.len() == 0 {
            with
        } else {
            with + seq![s[0]] + replace(s.skip(1), pat, with)
        }
    } else if starts_with(s, pat) {
        with + replace(s.skip(pat.len() as int), pat, with)
    } else if s.len() == 0 {
        s
    } else {
        seq![s[0]] + replace(s.skip(1), pat, with)
    }
}

/// The position of the first `c` in `s`, or the length of `s` if there is
/// none.
pub open spec fn index_of(s: Seq<char>, c: char) -> int
    decreases s.len(),
{
    if s.len() == 0 || s[0] == c {
        0
    } else {
        1 + index_of(s.skip(1), c)
    }
}

/// The characters with the Unicode property White_Space.
pub open spec fn is_whitespace(c: char) -> bool {
    let n = c as u32;
    ||| 0x09 <= n <= 0x0D
    ||| n == 0x20
    ||| n == 0x85
    ||| n == 0xA0
    ||| n == 0x1680
    ||| 0x2000 <= n <= 0x200A
    ||| n == 0x2028
    ||| n == 0x2029
    ||| n == 0x202F
    ||| n == 0x205F
    ||| n == 0x3000
}

/// `s` without the whitespace it begins with.
pub open spec fn trim_start(s: Seq<char>) -> Seq<char>
    decreases s.len(),
{
    if s.len() > 0 && is_whitespace(s[0]) {
        trim_start(s.skip(1))
    } else {
        s
    }
}

/// `s` without the whitespace it ends with.
pub open spec fn trim_end(s: Seq<char>) -> Seq<char>
    decreases s.len(),
{
    if s.len() > 0 && is_whitespace(s.last()) {
        trim_end(s.drop_last())
    } else {
        s
    }
}

/// `s` without the whitespace at either end.
pub open spec fn trim(s: Seq<char>) -> Seq<char> {
    trim_end(trim_start(s))
}

/// The longest beginning of `s` that holds no whitespace.
pub open spec fn leading_word(s: Seq<char>) -> Seq<char>
    decreases s.len(),
{
    if s.len() > 0 && !is_whitespace(s[0]) {
        seq![s[0]] + leading_word(s.skip(1))
    } else {
        Seq::<char>::empty()
    }
}

/// The first run of characters in `s` that are not whitespace; empty if `s`
/// holds none.
pub open spec fn first_token(s: Seq<char>) -> Seq<char> {
    leading_word(trim_start(s))
}

/// A single or double quotation mark.
pub open spec fn is_quote(c: char) -> bool {
    c == '\'' || c == '"'
}

/// `s` without its quotation marks.
pub open spec fn strip_quotes(s: Seq<char>) -> Seq<char>
    decreases s.len(),
{
    if s.len() == 0 {
        s
    } else if is_quote(s.last()) {
        strip_quotes(s.drop_last())
    } else {
        strip_quotes(s.drop_last()).push(s.last())
    }
}

pub proof fn lemma_split_nonempty(s: Seq<char>, sep: char)
    ensures
        split(s, sep).len() >= 1,
    decreases s.len(),
{
    if s.len() > 0 {
        lemma_split_nonempty(s.drop_last(), sep);
    }
}

/// The characters of a string slice.
pub fn chars_of(s: &str) -> (v: Vec<char>)
    ensures
        v@ == s@,
{
    let mut v: Vec<char> = Vec::new();
    for c in it: s.chars()
        invariant
            v@ == it.seq().take(it.index() as int),
    {
        v.push(c);
    }
    v
}

/// The string made of the given characters.
pub fn string_of(v: &Vec<char>) -> (s: String)
    ensures
        s@ == v@,
{
    let mut s = String::new();
    let mut i: usize = 0;
    while i < v.len()
        invariant
            i <= v.len(),
            s@ == v@.take(i as int),
        decreases v.len() - i,
    {
        s.push(v[i]);
        i += 1;
    }
    s
}

/// The two strings written one after the other.
pub fn str_concat(a: &str, b: &str) -> (s: String)
    ensures
        s@ == a@ + b@,
{
    let mut chars = chars_of(a);
    let tail = chars_of(b);
    append_text(&mut chars, &tail);
    string_of(&chars)
}

/// Whether two string slices hold the same characters.
pub fn str_eq(a: &str, b: &str) -> (r: bool)
    ensures
        r == (a@ == b@),
{
    let x = chars_of(a);
    let y = chars_of(b);
    text_eq(&x, &y)
}

/// The strings of `list` from position `from` on.
pub fn tail_strings(list: &Vec<String>, from: usize) -> (tail: Vec<String>)
    ensures
        str_views(tail@) == (if from <= list@.len() {
            str_views(list@).skip(from as int)
        } else {
            Seq::<Seq<char>>::empty()
        }),
{
    let mut tail: Vec<String> = Vec::new();
    if from > list.len() {
        assert(str_views(tail@) =~= Seq::<Seq<char>>::empty());
        return tail;
    }
    let mut i: usize = from;
    while i < list.len()
        invariant
            from <= i <= list.len(),
            str_views(tail@) == str_views(list@).subrange(from as int, i as int),
        decreases list.len() - i,
    {
        let ghost before = tail@;
        tail.push(list[i].clone());
        assert(str_views(tail@) == str_views(before).push(list@[i as int]@));
        i += 1;
    }
    assert(str_views(list@).subrange(from as int, list.len() as int) == str_views(list@).skip(
        from as int,
    ));
    tail
}

/// Whether two texts hold the same characters.
pub fn text_eq(a: &Vec<char>, b: &Vec<char>) -> (r: bool)
    ensures
        r == (a@ == b@),
{
    if a.len() != b.len() {
        return false;
    }
    let mut i: usize = 0;
    while i < a.len()
        invariant
            i <= a.len(),
            a.len() == b.len(),
            a@.take(i as int) == b@.take(i as int),
        decreases a.len() - i,
    {
        if a[i] != b[i] {
            return false;
        }
        assert(a@.take(i + 1) == a@.take(i as int).push(a@[i as int]));
        assert(b@.take(i + 1) == b@.take(i as int).push(b@[i as int]));
        i += 1;
    }
    assert(a@.take(a.len() as int) == a@);
    assert(b@.take(b.len() as int) == b@);
    true
}

/// Cuts a text at every occurrence of `sep`.
pub fn split_text(s: &Vec<char>, sep: char) -> (parts: Vec<Vec<char>>)
    ensures
        views(parts@) == split(s@, sep),
{
    let mut parts: Vec<Vec<char>> = Vec::new();
    let mut cur: Vec<char> = Vec::new();
    let mut i: usize = 0;
    while i < s.len()
        invariant
            i <= s.len(),
            views(parts@).push(cur@) == split(s@.take(i as int), sep),
        decreases s.len() - i,
    {
        let c = s[i];
        proof {
            let t = s@.take(i + 1);
            assert(t.drop_last() == s@.take(i as int));
            assert(t.last() == c);
            let init = split(t.drop_last(), sep);
            assert(init.last() == cur@);
            assert(init.drop_last() == views(parts@));
        }
        if c == sep {
            let ghost before = parts@;
            parts.push(cur);
            assert(views(parts@) == views(before).push(cur@));
            cur = Vec::new();
        } else {
            cur.push(c);
        }
        i += 1;
    }
    let ghost before = parts@;
    parts.push(cur);
    assert(views(parts@) == views(before).push(cur@));
    assert(s@.take(s.len() as int) == s@);
    parts
}

/// Writes the pieces one after another with `sep` between them.
pub fn join_text(parts: &Vec<Vec<char>>, sep: &Vec<char>) -> (r: Vec<char>)
    ensures
        r@ == join(views(parts@), sep@),
{
    let mut r: Vec<char> = Vec::new();
    let mut i: usize = 0;
    while i < parts.len()
        invariant
            i <= parts.len(),
            r@ == join(views(parts@).take(i as int), sep@),
        decreases parts.len() - i,
    {
        proof {
            let t = views(parts@).take(i + 1);
            assert(t.drop_last() == views(parts@).take(i as int));
            assert(t.last() == parts@[i as int]@);
        }
        if i > 0 {
            append_text(&mut r, sep);
        }
        append_text(&mut r, &parts[i]);
        i += 1;
    }
    assert(views(parts@).take(parts.len() as int) == views(parts@));
    r
}

/// Appends the characters of `tail` to `r`.
pub fn append_text(r: &mut Vec<char>, tail: &Vec<char>)
    ensures
        final(r)@ == old(r)@ + tail@,
{
    let mut j: usize = 0;
    while j < tail.len()
        invariant
            j <= tail.len(),
            r@ == old(r)@ + tail@.take(j as int),
        decreases tail.len() - j,
    {
        r.push(tail[j]);
        assert(tail@.take(j + 1) == tail@.take(j as int).push(tail@[j as int]));
        j += 1;
    }
    assert(tail@.take(tail.len() as int) == tail@);
}

/// `index_of` is the one position before which no `c` stands and at which
/// `s` ends or holds `c`.
pub proof fn lemma_index_of(s: Seq<char>, c: char, k: int)
    requires
        0 <= k <= s.len(),
        forall|j: int| 0 <= j < k ==> s[j] != c,
        k == s.len() || s[k] == c,
    ensures
        index_of(s, c) == k,
    decreases s.len(),
{
    if s.len() == 0 || s[0] == c {
    } else {
        let t = s.skip(1);
        assert forall|j: int| 0 <= j < k - 1 implies t[j] != c by {
            assert(t[j] == s[j + 1]);
        }
        lemma_index_of(t, c, k - 1);
    }
}

/// What `index_of` finds: a position within `s` with no `c` before it.
pub proof fn lemma_index_of_bounds(s: Seq<char>, c: char)
    ensures
        0 <= index_of(s, c) <= s.len(),
        forall|j: int| 0 <= j < index_of(s, c) ==> s[j] != c,
        index_of(s, c) < s.len() ==> s[index_of(s, c)] == c,
        index_of(s, c) == s.len() <==> !s.contains(c),
    decreases s.len(),
{
    if s.len() == 0 || s[0] == c {
    } else {
        let t = s.skip(1);
        lemma_index_of_bounds(t, c);
        assert forall|j: int| 0 <= j < index_of(s, c) implies s[j] != c by {
            if j > 0 {
                assert(t[j - 1] == s[j]);
            }
        }
        if index_of(s, c) < s.len() {
            assert(t[index_of(t, c)] == s[index_of(s, c)]);
        }
    }
}

/// Whether `p` is found in `s` at position `i`.
pub fn matches_at(s: &Vec<char>, p: &Vec<char>, i: usize) -> (r: bool)
    ensures
        r == occurs_at(s@, p@, i as int),
{
    if p.len() > s.len() || i > s.len() - p.len() {
        return false;
    }
    let mut j: usize = 0;
    while j < p.len()
        invariant
            j <= p.len(),
            i + p.len() <= s.len(),
            s@.subrange(i as int, i + j) == p@.take(j as int),
        decreases p.len() - j,
    {
        if s[i + j] != p[j] {
            assert(s@.subrange(i as int, i + p.len())[j as int] != p@[j as int]);
            return false;
        }
        assert(s@.subrange(i as int, i + j + 1) == s@.subrange(i as int, i + j).push(s@[i + j]));
        assert(p@.take(j + 1) == p@.take(j as int).push(p@[j as int]));
        j += 1;
    }
    assert(p@.take(p.len() as int) == p@);
    true
}

/// Whether `s` begins with `p`.
pub fn has_prefix(s: &Vec<char>, p: &Vec<char>) -> (r: bool)
    ensures
        r == starts_with(s@, p@),
{
    matches_at(s, p, 0)
}

/// Whether `s` ends with `p`.
pub fn has_suffix(s: &Vec<char>, p: &Vec<char>) -> (r: bool)
    ensures
        r == ends_with(s@, p@),
{
    if p.len() > s.len() {
        return false;
    }
    matches_at(s, p, s.len() - p.len())
}

/// Whether `p` is found somewhere in `s`.
pub fn has_text(s: &Vec<char>, p: &Vec<char>) -> (r: bool)
    ensures
        r == contains_text(s@, p@),
{
    if p.len() > s.len() {
        return false;
    }
    let last: usize = s.len() - p.len();
    let mut i: usize = 0;
    while i < last
        invariant
            i <= last,
            last == s.len() - p.len(),
            forall|k: int| 0 <= k < i ==> !occurs_at(s@, p@, k),
        decreases last - i,
    {
        if matches_at(s, p, i) {
            return true;
        }
        i += 1;
    }
    matches_at(s, p, last)
}

/// The copy of `s` from position `from` up to `to`.
pub fn slice_text(s: &Vec<char>, from: usize, to: usize) -> (r: Vec<char>)
    requires
        from <= to <= s.len(),
    ensures
        r@ == s@.subrange(from as int, to as int),
{
    let mut r: Vec<char> = Vec::new();
    let mut i: usize = from;
    while i < to
        invariant
            from <= i <= to,
            to <= s.len(),
            r@ == s@.subrange(from as int, i as int),
        decreases to - i,
    {
        r.push(s[i]);
        assert(s@.subrange(from as int, i + 1) == s@.subrange(from as int, i as int).push(s@[i as int]));
        i += 1;
    }
    r
}

/// The position of the first `c` in `s`, or the length of `s`.
pub fn find_char(s: &Vec<char>, c: char) -> (k: usize)
    ensures
        k == index_of(s@, c),
        k <= s.len(),
{
    let mut k: usize = 0;
    while k < s.len() && s[k] != c
        invariant
            k <= s.len(),
            forall|j: int| 0 <= j < k ==> s@[j] != c,
        decreases s.len() - k,
    {
        k += 1;
    }
    proof {
        lemma_index_of(s@, c, k as int);
    }
    k
}

/// Exchanges every occurrence of `pat` in `s` for `with`.
pub fn replace_text(s: &Vec<char>, pat: &Vec<char>, with: &Vec<char>) -> (r: Vec<char>)
    ensures
        r@ == replace(s@, pat@, with@),
{
    let mut r: Vec<char> = Vec::new();
    let mut i: usize = 0;
    assert(s@.skip(0) == s@);
    while i < s.len()
        invariant
            i <= s.len(),
            r@ + replace(s@.skip(i as int), pat@, with@) == replace(s@, pat@, with@),
        decreases s.len() - i,
    {
        let ghost rest = s@.skip(i as int);
        let ghost before = r@;
        proof {
            assert(rest[0] == s@[i as int]);
            assert(rest.skip(1) == s@.skip(i + 1));
            if i + pat@.len() <= s@.len() {
                assert(rest.subrange(0, pat@.len() as int) == s@.subrange(
                    i as int,
                    i + pat@.len(),
                ));
            }
            assert(starts_with(rest, pat@) == occurs_at(s@, pat@, i as int));
        }
        if pat.len() == 0 {
            append_text(&mut r, with);
            r.push(s[i]);
            assert(r@ == before + (with@ + seq![s@[i as int]]));
            i += 1;
        } else if matches_at(s, pat, i) {
            append_text(&mut r, with);
            assert(rest.skip(pat@.len() as int) == s@.skip(i + pat@.len()));
            i += pat.len();
        } else {
            r.push(s[i]);
            assert(r@ == before + seq![s@[i as int]]);
            i += 1;
        }
        assert(r@ + replace(s@.skip(i as int), pat@, with@) == before + replace(
            rest,
            pat@,
            with@,
        ));
    }
    assert(s@.skip(s.len() as int).len() == 0);
    if pat.len() == 0 {
        append_text(&mut r, with);
    }
    r
}

/// Whether `c` has the Unicode property White_Space.
pub fn is_space(c: char) -> (r: bool)
    ensures
        r == is_whitespace(c),
{
    let n: u32 = c as u32;
    (0x09 <= n && n <= 0x0D) || n == 0x20 || n == 0x85 || n == 0xA0 || n == 0x1680 || (0x2000 <= n
        && n <= 0x200A) || n == 0x2028 || n == 0x2029 || n == 0x202F || n == 0x205F || n == 0x3000
}

/// Removes the whitespace at both ends of `s`.
pub fn trim_text(s: &Vec<char>) -> (r: Vec<char>)
    ensures
        r@ == trim(s@),
{
    let n: usize = s.len();
    let mut a: usize = 0;
    assert(s@.skip(0) == s@);
    while a < n && is_space(s[a])
        invariant
            a <= n,
            n == s.len(),
            trim_start(s@.skip(a as int)) == trim_start(s@),
        decreases n - a,
    {
        assert(s@.skip(a as int)[0] == s@[a as int]);
        assert(s@.skip(a as int).skip(1) == s@.skip(a + 1));
        a += 1;
    }
    proof {
        if a < n {
            assert(s@.skip(a as int)[0] == s@[a as int]);
        }
        assert(trim_start(s@) == s@.skip(a as int));
        assert(s@.skip(a as int) == s@.subrange(a as int, n as int));
    }
    let mut b: usize = n;
    while b > a && is_space(s[b - 1])
        invariant
            a <= b <= n,
            n == s.len(),
            trim_end(s@.subrange(a as int, b as int)) == trim(s@),
        decreases b - a,
    {
        assert(s@.subrange(a as int, b as int).last() == s@[b - 1]);
        assert(s@.subrange(a as int, b as int).drop_last() == s@.subrange(a as int, b - 1));
        b -= 1;
    }
    proof {
        if b > a {
            assert(s@.subrange(a as int, b as int).last() == s@[b - 1]);
        }
    }
    slice_text(s, a, b)
}

/// The first run of characters in `s` that are not whitespace.
pub fn first_token_text(s: &Vec<char>) -> (r: Vec<char>)
    ensures
        r@ == first_token(s@),
{
    let n: usize = s.len();
    let mut a: usize = 0;
    assert(s@.skip(0) == s@);
    while a < n && is_space(s[a])
        invariant
            a <= n,
            n == s.len(),
            trim_start(s@.skip(a as int)) == trim_start(s@),
        decreases n - a,
    {
        assert(s@.skip(a as int)[0] == s@[a as int]);
        assert(s@.skip(a as int).skip(1) == s@.skip(a + 1));
        a += 1;
    }
    proof {
        if a < n {
            assert(s@.skip(a as int)[0] == s@[a as int]);
        }
        assert(trim_start(s@) == s@.skip(a as int));
    }
    let mut r: Vec<char> = Vec::new();
    let mut b: usize = a;
    while b < n && !is_space(s[b])
        invariant
            a <= b <= n,
            n == s.len(),
            r@ + leading_word(s@.skip(b as int)) == first_token(s@),
        decreases n - b,
    {
        assert(s@.skip(b as int)[0] == s@[b as int]);
        assert(s@.skip(b as int).skip(1) == s@.skip(b + 1));
        let ghost before = r@;
        r.push(s[b]);
        assert(r@ == before + seq![s@[b as int]]);
        assert(r@ + leading_word(s@.skip(b + 1)) == before + leading_word(s@.skip(b as int)));
        b += 1;
    }
    proof {
        if b < n {
            assert(s@.skip(b as int)[0] == s@[b as int]);
        }
        assert(leading_word(s@.skip(b as int)).len() == 0);
        assert(r@ + leading_word(s@.skip(b as int)) == r@);
    }
    r
}

/// Removes the quotation marks from `s`.
pub fn strip_quotes_text(s: &Vec<char>) -> (r: Vec<char>)
    ensures
        r@ == strip_quotes(s@),
{
    let mut r: Vec<char> = Vec::new();
    let mut i: usize = 0;
    while i < s.len()
        invariant
            i <= s.len(),
            r@ == strip_quotes(s@.take(i as int)),
        decreases s.len() - i,
    {
        let c = s[i];
        proof {
            let t = s@.take(i + 1);
            assert(t.drop_last() == s@.take(i as int));
            assert(t.last() == c);
        }
        if !(c == '\'' || c == '"') {
            r.push(c);
        }
        i += 1;
    }
    assert(s@.take(s.len() as int) == s@);
    r
}

/// Where the result of a replacement begins with characters that `with` does
/// not hold, these were in `s` already, at the same place.
proof fn lemma_replace_keeps_prefix(s: Seq<char>, pat: Seq<char>, with: Seq<char>, m: int)
    requires
        pat.len() > 0,
        with.len() > 0,
        0 <= m <= replace(s, pat, with).len(),
        forall|j: int| 0 <= j < m ==> !with.contains(#[trigger] replace(s, pat, with)[j]),
    ensures
        m <= s.len(),
        replace(s, pat, with).take(m) == s.take(m),
    decreases s.len(),
{
    let r = replace(s, pat, with);
    if m == 0 {
    } else if starts_with(s, pat) {
        assert(r[0] == with[0]);
        assert(with.contains(r[0]));
    } else if s.len() == 0 {
    } else {
        let rest = replace(s.skip(1), pat, with);
        assert(r == seq![s[0]] + rest);
        assert forall|j: int| 0 <= j < m - 1 implies !with.contains(#[trigger] rest[j]) by {
            assert(rest[j] == r[j + 1]);
        }
        lemma_replace_keeps_prefix(s.skip(1), pat, with, m - 1);
        assert(r.take(m) =~= seq![s[0]] + rest.take(m - 1));
        assert(s.take(m) =~= seq![s[0]] + s.skip(1).take(m - 1));
    }
}

/// Once every occurrence of `pat` has been exchanged for a text whose
/// characters `pat` does not hold, `pat` occurs nowhere in the result.
pub proof fn lemma_replace_leaves_none(s: Seq<char>, pat: Seq<char>, with: Seq<char>)
    requires
        pat.len() > 0,
        with.len() > 0,
        forall|i: int| 0 <= i < with.len() ==> !pat.contains(#[trigger] with[i]),
    ensures
        !contains_text(replace(s, pat, with), pat),
    decreases s.len(),
{
    let r = replace(s, pat, with);
    assert forall|k: int| !occurs_at(r, pat, k) by {
        if occurs_at(r, pat, k) {
            let found = r.subrange(k, k + pat.len());
            if starts_with(s, pat) {
                let rest = replace(s.skip(pat.len() as int), pat, with);
                lemma_replace_leaves_none(s.skip(pat.len() as int), pat, with);
                if k < with.len() {
                    assert(found[0] == with[k]);
                    assert(pat[0] == with[k]);
                    assert(pat.contains(with[k]));
                } else {
                    assert(rest.subrange(k - with.len(), k - with.len() + pat.len()) =~= found);
                    assert(occurs_at(rest, pat, k - with.len()));
                }
            } else if s.len() == 0 {
            } else {
                let rest = replace(s.skip(1), pat, with);
                lemma_replace_leaves_none(s.skip(1), pat, with);
                if k > 0 {
                    assert(rest.subrange(k - 1, k - 1 + pat.len()) =~= found);
                    assert(occurs_at(rest, pat, k - 1));
                } else {
                    let m = pat.len() - 1;
                    assert forall|j: int| 0 <= j < m implies !with.contains(
                        #[trigger] rest[j],
                    ) by {
                        assert(rest[j] == found[j + 1]);
                        assert(rest[j] == pat[j + 1]);
                        if with.contains(rest[j]) {
                            let i = choose|i: int| 0 <= i < with.len() && with[i] == rest[j];
                            assert(pat.contains(with[i]));
                        }
                    }
                    lemma_replace_keeps_prefix(s.skip(1), pat, with, m);
                    assert(s.subrange(0, pat.len() as int) =~= seq![s[0]] + s.skip(1).take(m));
                    assert(found =~= seq![s[0]] + rest.take(m));
                    assert(starts_with(s, pat));
                }
            }
        }
    }
}

/// Joining the pieces of a split with the separator gives the text back.
pub proof fn lemma_join_split(s: Seq<char>, sep: char)
    ensures
        join(split(s, sep), seq![sep]) == s,
    decreases s.len(),
{
    if s.len() > 0 {
        let t = s.drop_last();
        let init = split(t, sep);
        lemma_join_split(t, sep);
        lemma_split_nonempty(t, sep);
        assert(s == t.push(s.last()));
        if s.last() == sep {
            let all = init.push(Seq::<char>::empty());
            assert(all.drop_last() == init);
            assert(join(all, seq![sep]) == t + seq![sep] + Seq::<char>::empty());
            assert(t + seq![sep] + Seq::<char>::empty() =~= s);
        } else {
            let grown = init.last().push(s.last());
            let all = init.drop_last().push(grown);
            if init.len() == 1 {
                assert(all[0] == grown);
                assert(init[0] == t);
            } else {
                assert(all.drop_last() == init.drop_last());
                assert(join(all, seq![sep]) == join(init.drop_last(), seq![sep]) + seq![sep]
                    + grown);
                assert(join(init.drop_last(), seq![sep]) + seq![sep] + grown =~= (join(
                    init.drop_last(),
                    seq![sep],
                ) + seq![sep] + init.last()).push(s.last()));
            }
        }
    }
}

/// No piece of a split holds the separator.
pub proof fn lemma_split_pieces(s: Seq<char>, sep: char)
    ensures
        forall|i: int| 0 <= i < split(s, sep).len() ==> !(#[trigger] split(s, sep)[i]).contains(sep),
    decreases s.len(),
{
    if s.len() > 0 {
        let t = s.drop_last();
        let init = split(t, sep);
        lemma_split_pieces(t, sep);
        lemma_split_nonempty(t, sep);
        let all = split(s, sep);
        assert forall|i: int| 0 <= i < all.len() implies !(#[trigger] all[i]).contains(sep) by {
            if i < all.len() - 1 {
                assert(all[i] == init[i]);
            } else if s.last() != sep {
                let grown = init.last().push(s.last());
                assert(all[i] == grown);
                if grown.contains(sep) {
                    let k = choose|k: int| 0 <= k < grown.len() && grown[k] == sep;
                    assert(init.last()[k] == sep);
                    assert(init[init.len() - 1].contains(sep));
                }
            }
        }
    }
}

/// A text without the separator is its own single piece, and only such a
/// text has a single piece.
pub proof fn lemma_split_single(s: Seq<char>, sep: char)
    ensures
        split(s, sep).len() == 1 <==> !s.contains(sep),
        !s.contains(sep) ==> split(s, sep) == seq![s],
    decreases s.len(),
{
    if s.len() > 0 {
        let t = s.drop_last();
        lemma_split_single(t, sep);
        lemma_split_nonempty(t, sep);
        if t.contains(sep) {
            let k = choose|k: int| 0 <= k < t.len() && t[k] == sep;
            assert(s[k] == sep);
        }
        if s.last() == sep {
            assert(s[s.len() - 1] == sep);
        }
        if s.contains(sep) {
            let k = choose|k: int| 0 <= k < s.len() && s[k] == sep;
            if k < t.len() {
                assert(t[k] == sep);
            }
        } else {
            assert(split(s, sep) =~= seq![s]) by {
                assert(split(t, sep) == seq![t]);
                assert(t.push(s.last()) == s);
            }
        }
    } else {
        assert(!s.contains(sep));
        assert(s =~= Seq::<char>::empty());
        assert(split(s, sep) =~= seq![s]);
    }
}

/// Joining a piece and then at least one more puts the separator after the
/// first.
pub proof fn lemma_join_first(head: Seq<char>, rest: Seq<Seq<char>>, sep: Seq<char>)
    requires
        rest.len() >= 1,
    ensures
        join(seq![head] + rest, sep) == head + sep + join(rest, sep),
    decreases rest.len(),
{
    let all = seq![head] + rest;
    assert(all.drop_last() == seq![head] + rest.drop_last());
    assert(all.last() == rest.last());
    if rest.len() == 1 {
        assert(all.drop_last() == seq![head]);
        assert(join(all.drop_last(), sep) == head);
    } else {
        lemma_join_first(head, rest.drop_last(), sep);
        assert(join(all, sep) =~= head + sep + (join(rest.drop_last(), sep) + sep + rest.last()));
    }
}

/// What trimming leaves is a part of the text: it starts after the leading
/// whitespace and ends before the trailing whitespace, and it neither begins
/// nor ends with whitespace.
pub proof fn lemma_trim_is_part(s: Seq<char>) -> (ends: (int, int))
    ensures
        0 <= ends.0 <= ends.1 <= s.len(),
        trim(s) == s.subrange(ends.0, ends.1),
        forall|j: int| 0 <= j < ends.0 ==> is_whitespace(s[j]),
        forall|j: int| ends.1 <= j < s.len() ==> is_whitespace(s[j]),
        ends.0 < ends.1 ==> !is_whitespace(s[ends.0]) && !is_whitespace(s[ends.1 - 1]),
        ends.0 == ends.1 ==> ends.0 == s.len(),
{
    let a = lemma_trim_start_is_tail(s);
    let t = s.skip(a);
    let b = lemma_trim_end_is_head(t);
    assert(t.take(b) == s.subrange(a, a + b));
    assert forall|j: int| a + b <= j < s.len() implies is_whitespace(s[j]) by {
        assert(t[j - a] == s[j]);
    }
    if 0 < b {
        assert(t[b - 1] == s[a + b - 1]);
    } else if a < s.len() {
        assert(t[0] == s[a]);
        assert(!is_whitespace(t[0]));
    }
    (a, a + b)
}

/// `trim_start` drops exactly the whitespace that the text begins with.
proof fn lemma_trim_start_is_tail(s: Seq<char>) -> (a: int)
    ensures
        0 <= a <= s.len(),
        trim_start(s) == s.skip(a),
        forall|j: int| 0 <= j < a ==> is_whitespace(s[j]),
        a < s.len() ==> !is_whitespace(s[a]),
    decreases s.len(),
{
    if s.len() > 0 && is_whitespace(s[0]) {
        let t = s.skip(1);
        let a = lemma_trim_start_is_tail(t);
        assert(t.skip(a) == s.skip(a + 1));
        assert forall|j: int| 0 <= j < a + 1 implies is_whitespace(s[j]) by {
            if j > 0 {
                assert(t[j - 1] == s[j]);
            }
        }
        if a + 1 < s.len() {
            assert(t[a] == s[a + 1]);
        }
        a + 1
    } else {
        assert(s.skip(0) == s);
        0
    }
}

/// `trim_end` drops exactly the whitespace that the text ends with.
proof fn lemma_trim_end_is_head(s: Seq<char>) -> (b: int)
    ensures
        0 <= b <= s.len(),
        trim_end(s) == s.take(b),
        forall|j: int| b <= j < s.len() ==> is_whitespace(s[j]),
        0 < b ==> !is_whitespace(s[b - 1]),
    decreases s.len(),
{
    if s.len() > 0 && is_whitespace(s.last()) {
        let t = s.drop_last();
        let b = lemma_trim_end_is_head(t);
        assert(t.take(b) == s.take(b));
        assert forall|j: int| b <= j < s.len() implies is_whitespace(s[j]) by {
            if j < t.len() {
                assert(t[j] == s[j]);
            }
        }
        if 0 < b {
            assert(t[b - 1] == s[b - 1]);
        }
        b
    } else {
        assert(s.take(s.len() as int) == s);
        s.len() as int
    }
}

/// A replacement does not reach across a character that the pattern does
/// not hold: the texts on either side of it are replaced each on its own.
pub proof fn lemma_replace_across(
    a: Seq<char>,
    c: char,
    b: Seq<char>,
    pat: Seq<char>,
    with: Seq<char>,
)
    requires
        pat.len() > 0,
        !pat.contains(c),
    ensures
        replace(a + seq![c] + b, pat, with) == replace(a, pat, with) + seq![c] + replace(
            b,
            pat,
            with,
        ),
    decreases a.len(),
{
    let s = a + seq![c] + b;
    let n = pat.len() as int;
    if starts_with(s, pat) {
        if n > a.len() {
            assert(s.subrange(0, n)[a.len() as int] == c);
            assert(pat[a.len() as int] == c);
            assert(false);
        }
        assert(a.subrange(0, n) =~= s.subrange(0, n));
        assert(starts_with(a, pat));
        assert(s.skip(n) =~= a.skip(n) + seq![c] + b);
        lemma_replace_across(a.skip(n), c, b, pat, with);
        assert(replace(s, pat, with) =~= replace(a, pat, with) + seq![c] + replace(b, pat, with));
    } else if a.len() == 0 {
        assert(s.skip(1) =~= b);
        assert(s[0] == c);
        assert(a =~= Seq::<char>::empty());
        assert(replace(s, pat, with) =~= replace(a, pat, with) + seq![c] + replace(b, pat, with));
    } else {
        if starts_with(a, pat) {
            assert(s.subrange(0, n) =~= a.subrange(0, n));
            assert(false);
        }
        assert(s.skip(1) =~= a.skip(1) + seq![c] + b);
        assert(s[0] == a[0]);
        lemma_replace_across(a.skip(1), c, b, pat, with);
        assert(replace(s, pat, with) =~= replace(a, pat, with) + seq![c] + replace(b, pat, with));
    }
}

/// Replacing a pattern in a join whose separator the pattern does not hold
/// replaces it in each piece.
pub proof fn lemma_replace_pieces(parts: Seq<Seq<char>>, c: char, pat: Seq<char>, with: Seq<char>)
    requires
        pat.len() > 0,
        !pat.contains(c),
    ensures
        replace(join(parts, seq![c]), pat, with) == join(
            Seq::new(parts.len(), |i: int| replace(parts[i], pat, with)),
            seq![c],
        ),
    decreases parts.len(),
{
    let done = Seq::new(parts.len(), |i: int| replace(parts[i], pat, with));
    if parts.len() == 0 {
        assert(replace(Seq::<char>::empty(), pat, with) =~= Seq::<char>::empty());
    } else if parts.len() == 1 {
    } else {
        let init = parts.drop_last();
        let init_done = Seq::new(init.len(), |i: int| replace(init[i], pat, with));
        lemma_replace_pieces(init, c, pat, with);
        lemma_replace_across(join(init, seq![c]), c, parts.last(), pat, with);
        assert(done.drop_last() =~= init_done);
        assert(done.last() == replace(parts.last(), pat, with));
    }
}

/// Where a text does not hold the mark that its pattern was exchanged for,
/// exchanging the mark for the pattern gives the text back: the marks in
/// the result stand exactly where the pattern stood.
pub proof fn lemma_replace_undone(t: Seq<char>, pat: Seq<char>, mark: char)
    requires
        pat.len() > 0,
        !t.contains(mark),
    ensures
        replace(replace(t, pat, seq![mark]), seq![mark], pat) == t,
    decreases t.len(),
{
    let m = seq![mark];
    let out = replace(t, pat, m);
    if starts_with(t, pat) {
        let n = pat.len() as int;
        let tail = t.skip(n);
        if tail.contains(mark) {
            let k = choose|k: int| 0 <= k < tail.len() && tail[k] == mark;
            assert(t[k + n] == mark);
        }
        lemma_replace_undone(tail, pat, mark);
        let rest = replace(tail, pat, m);
        assert(out == m + rest);
        assert(out.subrange(0, 1) =~= m);
        assert(out.skip(1) =~= rest);
        assert(t =~= pat + tail);
    } else if t.len() == 0 {
    } else {
        let tail = t.skip(1);
        if tail.contains(mark) {
            let k = choose|k: int| 0 <= k < tail.len() && tail[k] == mark;
            assert(t[k + 1] == mark);
        }
        lemma_replace_undone(tail, pat, mark);
        let rest = replace(tail, pat, m);
        assert(out == seq![t[0]] + rest);
        assert(t[0] != mark);
        if starts_with(out, m) {
            assert(out.subrange(0, 1)[0] == m[0]);
            assert(false);
        }
        assert(out.skip(1) =~= rest);
        assert(t =~= seq![t[0]] + tail);
    }
}

} // verus!
