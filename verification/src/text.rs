use vstd::prelude::*;

verus! {

/// `String::push` of std: appends the character `c` to the end of the string.
pub assume_specification[ String::push ](s: &mut String, c: char)
    ensures
        final(s)@ == old(s)@.push(c),
;

/// What `str::to_uppercase` of std gives for `s`: each character replaced
/// by its upper-case form, as the Unicode tables of std have it.
pub uninterp spec fn uppercase(s: Seq<char>) -> Seq<char>;

/// What `str::to_lowercase` of std gives for `s`: each character replaced
/// by its lower-case form, as the Unicode tables of std have it.
pub uninterp spec fn lowercase(s: Seq<char>) -> Seq<char>;

/// `str::to_uppercase` of std: the upper-case form of `s`.
#[verifier::external_body]
pub(crate) fn to_upper(s: &str) -> (r: String)
    ensures
        r@ == uppercase(s@),
{
    s.to_uppercase()
}

/// `str::to_lowercase` of std: the lower-case form of `s`.
#[verifier::external_body]
pub(crate) fn to_lower(s: &str) -> (r: String)
    ensures
        r@ == lowercase(s@),
{
    s.to_lowercase()
}

/// Whether `c` has the Unicode `White_Space` property.
pub open spec fn is_space(c: char) -> bool {
    let n = c as u32;
    ||| 0x09 <= n <= 0x0D
    ||| n == 0x20
    ||| n == 0x85
    ||| n == 0xA0
    ||| n == 0x1680
    ||| 0x2000 <= n <= 0x200A
    ||| n == 0x2028
    ||| n == 0x2029
    ||| n == 0x202F
    ||| n == 0x205F
    ||| n == 0x3000
}

/// Decides `is_space` by code point.
pub fn char_is_space(c: char) -> (b: bool)
    ensures
        b == is_space(c),
{
    let n: u32 = c as u32;
    (0x09 <= n && n <= 0x0D) || n == 0x20 || n == 0x85 || n == 0xA0 || n == 0x1680 || (0x2000 <= n
        && n <= 0x200A) || n == 0x2028 || n == 0x2029 || n == 0x202F || n == 0x205F || n == 0x3000
}

/// The characters of `s`, in order.
pub fn to_chars(s: &str) -> (v: Vec<char>)
    ensures
        v@ == s@,
{
    let mut v: Vec<char> = Vec::new();
    for c in it: s.chars()
        invariant
            it.seq() == s@,
            v@ == it.seq().take(it.index() as int),
    {
        v.push(c);
    }
    v
}

/// The string that holds the characters of `v`, in order.
pub fn to_text(v: &Vec<char>) -> (s: String)
    ensures
        s@ == v@,
{
    let mut s = String::new();
    let mut i: usize = 0;
    while i < v.len()
        invariant
            i <= v.len(),
            s@ == v@.take(i as int),
        decreases v.len() - i,
    {
        s.push(v[i]);
        i += 1;
    }
    s
}

/// A copy of the characters of `v` from index `from` up to, not including, `to`.
pub fn slice(v: &Vec<char>, from: usize, to: usize) -> (r: Vec<char>)
    requires
        from <= to <= v.len(),
    ensures
        r@ == v@.subrange(from as int, to as int),
{
    let mut r: Vec<char> = Vec::new();
    let mut i: usize = from;
    while i < to
        invariant
            from <= i <= to <= v.len(),
            r@ == v@.subrange(from as int, i as int),
        decreases to - i,
    {
        r.push(v[i]);
        i += 1;
    }
    r
}

/// A copy of `v`.
pub fn copy_chars(v: &Vec<char>) -> (r: Vec<char>)
    ensures
        r@ == v@,
{
    let r = slice(v, 0, v.len());
    assert(v@.subrange(0, v.len() as int) == v@);
    r
}

/// Appends the characters of `tail` to `v`.
pub fn extend(v: &mut Vec<char>, tail: &Vec<char>)
    ensures
        final(v)@ == old(v)@ + tail@,
{
    let mut i: usize = 0;
    while i < tail.len()
        invariant
            i <= tail.len(),
            v@ == old(v)@ + tail@.take(i as int),
        decreases tail.len() - i,
    {
        v.push(tail[i]);
        i += 1;
    }
    assert(tail@.take(tail.len() as int) == tail@);
}

/// Whether the two vectors hold the same characters.
pub fn same(a: &Vec<char>, b: &Vec<char>) -> (r: bool)
    ensures
        r == (a@ == b@),
{
    if a.len() != b.len() {
        return false;
    }
    let mut i: usize = 0;
    while i < a.len()
        invariant
            i <= a.len(),
            a.len() == b.len(),
            a@.take(i as int) == b@.take(i as int),
        decreases a.len() - i,
    {
        if a[i] != b[i] {
            return false;
        }
        assert(a@.take(i + 1) == a@.take(i as int).push(a@[i as int]));
        assert(b@.take(i + 1) == b@.take(i as int).push(b@[i as int]));
        i += 1;
    }
    assert(a@.take(a.len() as int) == a@);
    assert(b@.take(b.len() as int) == b@);
    true
}

/// Whether `needle` stands in `s` at index `i`.
pub open spec fn occurs_at(s: Seq<char>, needle: Seq<char>, i: int) -> bool {
    &&& 0 <= i
    &&& i + needle.len() <= s.len()
    &&& s.subrange(i, i + needle.len()) == needle
}

/// Whether `s` begins with `prefix`.
pub open spec fn has_prefix(s: Seq<char>, prefix: Seq<char>) -> bool {
    occurs_at(s, prefix, 0)
}

/// The index of the first occurrence of `needle` in `s` that starts at or
/// after `from`.
pub open spec fn find_from(s: Seq<char>, needle: Seq<char>, from: int) -> Option<int>
    decreases s.len() + 1 - from,
{
    if from < 0 || from + needle.len() > s.len() {
        None
    } else if occurs_at(s, needle, from) {
        Some(from)
    } else {
        find_from(s, needle, from + 1)
    }
}

/// The index of the first occurrence of `needle` in `s`.
pub open spec fn find(s: Seq<char>, needle: Seq<char>) -> Option<int> {
    find_from(s, needle, 0)
}

/// The index of the last occurrence of `needle` in `s` that starts at or
/// before `upto`.
pub open spec fn rfind_upto(s: Seq<char>, needle: Seq<char>, upto: int) -> Option<int>
    decreases upto + 1,
{
    if upto < 0 {
        None
    } else if occurs_at(s, needle, upto) {
        Some(upto)
    } else {
        rfind_upto(s, needle, upto - 1)
    }
}

/// `find_from` gives the least index at or after `from` where `needle`
/// stands, and `None` exactly when there is none.
pub proof fn lemma_find_from(s: Seq<char>, needle: Seq<char>, from: int)
    requires
        0 <= from,
    ensures
        match find_from(s, needle, from) {
            Some(i) => from <= i && occurs_at(s, needle, i) && forall|j: int|
                from <= j < i ==> !occurs_at(s, needle, j),
            None => forall|j: int| from <= j ==> !occurs_at(s, needle, j),
        },
    decreases s.len() + 1 - from,
{
    if from + needle.len() > s.len() {
    } else if occurs_at(s, needle, from) {
    } else {
        lemma_find_from(s, needle, from + 1);
    }
}

/// `rfind_upto` gives the greatest index at or before `upto` where `needle`
/// stands, and `None` exactly when there is none.
pub proof fn lemma_rfind_upto(s: Seq<char>, needle: Seq<char>, upto: int)
    ensures
        match rfind_upto(s, needle, upto) {
            Some(i) => 0 <= i <= upto && occurs_at(s, needle, i) && forall|j: int|
                i < j <= upto ==> !occurs_at(s, needle, j),
            None => forall|j: int| j <= upto ==> !occurs_at(s, needle, j),
        },
    decreases upto + 1,
{
    if upto < 0 {
    } else if occurs_at(s, needle, upto) {
    } else {
        lemma_rfind_upto(s, needle, upto - 1);
    }
}

/// Whether `needle` stands in `v` at index `i`.
pub fn occurs(v: &Vec<char>, needle: &Vec<char>, i: usize) -> (r: bool)
    ensures
        r == occurs_at(v@, needle@, i as int),
{
    if needle.len() > v.len() || i > v.len() - needle.len() {
        return false;
    }
    let mut k: usize = 0;
    while k < needle.len()
        invariant
            k <= needle.len(),
            i + needle.len() <= v.len(),
            v@.subrange(i as int, i + k) == needle@.take(k as int),
        decreases needle.len() - k,
    {
        if v[i + k] != needle[k] {
            assert(v@.subrange(i as int, i + needle.len())[k as int] != needle@[k as int]);
            return false;
        }
        assert(v@.subrange(i as int, i + k + 1) == v@.subrange(i as int, i + k).push(
            v@[i + k],
        ));
        assert(needle@.take(k + 1) == needle@.take(k as int).push(needle@[k as int]));
        k += 1;
    }
    assert(needle@.take(needle.len() as int) == needle@);
    true
}

/// The first occurrence of `needle` in `v` at or after `from`.
pub fn find_in(v: &Vec<char>, needle: &Vec<char>, from: usize) -> (r: Option<usize>)
    ensures
        match r {
            Some(i) => find_from(v@, needle@, from as int) == Some(i as int),
            None => find_from(v@, needle@, from as int) is None,
        },
{
    if needle.len() > v.len() {
        return None;
    }
    let last: usize = v.len() - needle.len();
    let mut i: usize = from;
    while i <= last
        invariant
            from <= i,
            last == v.len() - needle.len(),
            find_from(v@, needle@, from as int) == find_from(v@, needle@, i as int),
        decreases last + 1 - i,
    {
        if occurs(v, needle, i) {
            return Some(i);
        }
        if i == last {
            assert(find_from(v@, needle@, i + 1) is None);
            return None;
        }
        i += 1;
    }
    None
}

/// The last occurrence of `needle` in `v` that ends at or before `end`.
pub fn rfind_in(v: &Vec<char>, needle: &Vec<char>, end: usize) -> (r: Option<usize>)
    requires
        end <= v.len(),
    ensures
        match r {
            Some(i) => rfind_upto(v@, needle@, end - needle.len()) == Some(i as int),
            None => rfind_upto(v@, needle@, end - needle.len()) is None,
        },
{
    if needle.len() > end {
        return None;
    }
    let mut i: usize = end - needle.len();
    loop
        invariant
            i + needle.len() <= end <= v.len(),
            rfind_upto(v@, needle@, end - needle.len()) == rfind_upto(v@, needle@, i as int),
        decreases i,
    {
        if occurs(v, needle, i) {
            return Some(i);
        }
        if i == 0 {
            assert(rfind_upto(v@, needle@, -1) is None);
            return None;
        }
        i -= 1;
    }
}

/// The first index at or after `i` that does not hold white space, or the
/// length of `s` if there is none.
pub open spec fn skip_spaces(s: Seq<char>, i: int) -> int
    decreases s.len() - i,
{
    if 0 <= i < s.len() && is_space(s[i]) {
        skip_spaces(s, i + 1)
    } else {
        i
    }
}

/// The end of `s.subrange(lo, j)` once its trailing white space is taken off.
pub open spec fn drop_spaces(s: Seq<char>, lo: int, j: int) -> int
    decreases j,
{
    if 0 <= lo < j <= s.len() && is_space(s[j - 1]) {
        drop_spaces(s, lo, j - 1)
    } else {
        j
    }
}

/// `s` without its leading and trailing white space.
pub open spec fn trim(s: Seq<char>) -> Seq<char> {
    let a = skip_spaces(s, 0);
    s.subrange(a, drop_spaces(s, a, s.len() as int))
}

/// Whether every character of `s` is white space.
pub open spec fn all_spaces(s: Seq<char>) -> bool {
    forall|i: int| 0 <= i < s.len() ==> is_space(#[trigger] s[i])
}

/// Whether `s` neither begins nor ends with white space.
pub open spec fn is_trimmed(s: Seq<char>) -> bool {
    s.len() == 0 || (!is_space(s.first()) && !is_space(s.last()))
}

/// `skip_spaces` stops at the first character that is not white space.
pub proof fn lemma_skip_spaces(s: Seq<char>, i: int)
    requires
        0 <= i <= s.len(),
    ensures
        i <= skip_spaces(s, i) <= s.len(),
        forall|k: int| i <= k < skip_spaces(s, i) ==> is_space(#[trigger] s[k]),
        skip_spaces(s, i) < s.len() ==> !is_space(s[skip_spaces(s, i)]),
    decreases s.len() - i,
{
    if i < s.len() && is_space(s[i]) {
        lemma_skip_spaces(s, i + 1);
    }
}

/// `drop_spaces` stops behind the last character that is not white space.
pub proof fn lemma_drop_spaces(s: Seq<char>, lo: int, j: int)
    requires
        0 <= lo <= j <= s.len(),
    ensures
        lo <= drop_spaces(s, lo, j) <= j,
        forall|k: int| drop_spaces(s, lo, j) <= k < j ==> is_space(#[trigger] s[k]),
        lo < drop_spaces(s, lo, j) ==> !is_space(s[drop_spaces(s, lo, j) - 1]),
    decreases j,
{
    if lo < j && is_space(s[j - 1]) {
        lemma_drop_spaces(s, lo, j - 1);
    }
}

/// `trim` is the one stretch of `s` that neither begins nor ends with white
/// space and has nothing but white space on either side.
pub proof fn lemma_trim_is(s: Seq<char>, a: int, b: int)
    requires
        0 <= a <= b <= s.len(),
        all_spaces(s.subrange(0, a)),
        all_spaces(s.subrange(b, s.len() as int)),
        is_trimmed(s.subrange(a, b)),
    ensures
        trim(s) == s.subrange(a, b),
{
    lemma_skip_spaces(s, 0);
    let x = skip_spaces(s, 0);
    lemma_drop_spaces(s, x, s.len() as int);
    let y = drop_spaces(s, x, s.len() as int);
    assert forall|k: int| 0 <= k < a implies is_space(#[trigger] s[k]) by {
        assert(s.subrange(0, a)[k] == s[k]);
    }
    assert forall|k: int| b <= k < s.len() implies is_space(#[trigger] s[k]) by {
        assert(s.subrange(b, s.len() as int)[k - b] == s[k]);
    }
    if a < b {
        assert(s.subrange(a, b).first() == s[a]);
        assert(s.subrange(a, b).last() == s[b - 1]);
        assert(x == a);
        assert(y == b);
    } else {
        assert(x == s.len());
        assert(s.subrange(x, y) =~= s.subrange(a, b));
    }
}

/// What `trim` gives is trimmed, and what it took off is white space.
pub proof fn lemma_trim(s: Seq<char>)
    ensures
        is_trimmed(trim(s)),
        trim(s).len() <= s.len(),
        all_spaces(s) <==> trim(s).len() == 0,
        is_trimmed(s) ==> trim(s) == s,
{
    lemma_skip_spaces(s, 0);
    let x = skip_spaces(s, 0);
    lemma_drop_spaces(s, x, s.len() as int);
    let y = drop_spaces(s, x, s.len() as int);
    if x < y {
        assert(trim(s).first() == s[x]);
        assert(trim(s).last() == s[y - 1]);
    }
    if is_trimmed(s) {
        if s.len() > 0 {
            assert(x == 0);
            assert(y == s.len());
        }
        assert(trim(s) =~= s);
    }
}

/// `v` without its leading and trailing white space.
pub fn trimmed(v: &Vec<char>) -> (r: Vec<char>)
    ensures
        r@ == trim(v@),
{
    let mut a: usize = 0;
    while a < v.len() && char_is_space(v[a])
        invariant
            a <= v.len(),
            skip_spaces(v@, 0) == skip_spaces(v@, a as int),
        decreases v.len() - a,
    {
        a += 1;
    }
    let mut b: usize = v.len();
    while a < b && char_is_space(v[b - 1])
        invariant
            a <= b <= v.len(),
            drop_spaces(v@, a as int, v.len() as int) == drop_spaces(v@, a as int, b as int),
        decreases b,
    {
        b -= 1;
    }
    slice(v, a, b)
}

/// The character sequences that the vectors of `v` hold.
pub open spec fn rows(v: Seq<Vec<char>>) -> Seq<Seq<char>> {
    Seq::new(v.len(), |i: int| v[i]@)
}

/// The character sequences that the strings of `v` hold.
pub open spec fn texts(v: Seq<String>) -> Seq<Seq<char>> {
    Seq::new(v.len(), |i: int| v[i]@)
}

/// Whether `c` is one of the characters of `set`.
pub fn holds(set: &Vec<char>, c: char) -> (r: bool)
    ensures
        r == set@.contains(c),
{
    let mut i: usize = 0;
    while i < set.len()
        invariant
            i <= set.len(),
            forall|k: int| 0 <= k < i ==> set@[k] != c,
        decreases set.len() - i,
    {
        if set[i] == c {
            return true;
        }
        i += 1;
    }
    false
}

/// The pieces of `s.skip(start)` between the separators `seps`, where
/// `s.subrange(start, i)` is known to hold no separator.
pub open spec fn split_from(s: Seq<char>, seps: Seq<char>, start: int, i: int) -> Seq<Seq<char>>
    decreases s.len() - i,
{
    if i >= s.len() {
        seq![s.subrange(start, s.len() as int)]
    } else if seps.contains(s[i]) {
        seq![s.subrange(start, i)] + split_from(s, seps, i + 1, i + 1)
    } else {
        split_from(s, seps, start, i + 1)
    }
}

/// The pieces of `s` between the separators `seps`: one more than there are
/// separators in `s`, empty pieces included.
pub open spec fn split(s: Seq<char>, seps: Seq<char>) -> Seq<Seq<char>> {
    split_from(s, seps, 0, 0)
}

/// A split gives at least one piece.
pub proof fn lemma_split_len(s: Seq<char>, seps: Seq<char>)
    ensures
        split(s, seps).len() >= 1,
{
    lemma_split_from_len(s, seps, 0, 0);
}

/// A split gives at least one piece.
pub proof fn lemma_split_from_len(s: Seq<char>, seps: Seq<char>, start: int, i: int)
    ensures
        split_from(s, seps, start, i).len() >= 1,
    decreases s.len() - i,
{
    if i >= s.len() {
    } else if seps.contains(s[i]) {
        lemma_split_from_len(s, seps, i + 1, i + 1);
    } else {
        lemma_split_from_len(s, seps, start, i + 1);
    }
}

/// The pieces of `v` between the separators `seps`.
pub fn split_at_any(v: &Vec<char>, seps: &Vec<char>) -> (r: Vec<Vec<char>>)
    ensures
        rows(r@) == split(v@, seps@),
{
    let mut out: Vec<Vec<char>> = Vec::new();
    let mut start: usize = 0;
    let mut i: usize = 0;
    while i < v.len()
        invariant
            start <= i <= v.len(),
            split(v@, seps@) == rows(out@) + split_from(v@, seps@, start as int, i as int),
        decreases v.len() - i,
    {
        if holds(seps, v[i]) {
            let piece = slice(v, start, i);
            let ghost before = rows(out@);
            out.push(piece);
            assert(rows(out@) == before + seq![v@.subrange(start as int, i as int)]);
            start = i + 1;
        }
        i += 1;
    }
    let piece = slice(v, start, v.len());
    let ghost before = rows(out@);
    out.push(piece);
    assert(rows(out@) == before + seq![v@.subrange(start as int, v.len() as int)]);
    out
}

/// `line` without a carriage return at its end.
pub open spec fn strip_cr(line: Seq<char>) -> Seq<char> {
    if line.len() > 0 && line.last() == '\r' {
        line.drop_last()
    } else {
        line
    }
}

/// The lines of `s.skip(start)`, where `s.subrange(start, i)` is known to
/// hold no line feed.
pub open spec fn lines_from(s: Seq<char>, start: int, i: int) -> Seq<Seq<char>>
    decreases s.len() - i,
{
    if i >= s.len() {
        if start < s.len() {
            seq![s.subrange(start, s.len() as int)]
        } else {
            seq![]
        }
    } else if s[i] == '\n' {
        seq![strip_cr(s.subrange(start, i))] + lines_from(s, i + 1, i + 1)
    } else {
        lines_from(s, start, i + 1)
    }
}

/// The lines of `s`. A line ends at a line feed; the line feed, and a
/// carriage return just before it, are not part of the line. What follows the
/// last line feed is a line of its own unless it is empty.
pub open spec fn lines(s: Seq<char>) -> Seq<Seq<char>> {
    lines_from(s, 0, 0)
}

/// The lines of a text that stands behind another are those of the text
/// alone.
pub proof fn lemma_lines_shift(a: Seq<char>, b: Seq<char>, start: int, i: int)
    requires
        0 <= start <= i,
    ensures
        lines_from(a + b, a.len() + start, a.len() + i) == lines_from(b, start, i),
    decreases b.len() - i,
{
    let s = a + b;
    if i >= b.len() {
        if start < b.len() {
            assert(s.subrange(a.len() + start, s.len() as int) =~= b.subrange(
                start,
                b.len() as int,
            ));
        }
    } else {
        assert(s[a.len() + i] == b[i]);
        if b[i] == '\n' {
            assert(s.subrange(a.len() + start, a.len() + i) =~= b.subrange(start, i));
            lemma_lines_shift(a, b, i + 1, i + 1);
        } else {
            lemma_lines_shift(a, b, start, i + 1);
        }
    }
}

/// Within a text that ends with a line feed, the lines of what follows it
/// come behind its own.
pub proof fn lemma_lines_prefix(a: Seq<char>, b: Seq<char>, start: int, i: int)
    requires
        a.len() > 0 ==> a.last() == '\n',
        0 <= start <= i <= a.len(),
        forall|k: int| start <= k < i ==> a[k] != '\n',
    ensures
        lines_from(a + b, start, i) == lines_from(a, start, i) + lines(b),
    decreases a.len() - i,
{
    let s = a + b;
    if i == a.len() {
        if start < a.len() {
            assert(a[a.len() - 1] == '\n');
        }
        lemma_lines_shift(a, b, 0, 0);
        assert(lines_from(a, start, i) =~= Seq::<Seq<char>>::empty());
        assert(lines_from(a, start, i) + lines(b) =~= lines(b));
    } else {
        assert(s[i] == a[i]);
        if a[i] == '\n' {
            assert(s.subrange(start, i) =~= a.subrange(start, i));
            lemma_lines_prefix(a, b, i + 1, i + 1);
            assert(seq![strip_cr(a.subrange(start, i))] + (lines_from(a, i + 1, i + 1) + lines(b))
                =~= (seq![strip_cr(a.subrange(start, i))] + lines_from(a, i + 1, i + 1)) + lines(
                b,
            ));
        } else {
            lemma_lines_prefix(a, b, start, i + 1);
        }
    }
}

/// The lines of two texts one behind the other, of which the first is
/// empty or ends with a line feed, are the lines of the first and then
/// those of the second.
pub proof fn lemma_lines_concat(a: Seq<char>, b: Seq<char>)
    requires
        a.len() > 0 ==> a.last() == '\n',
    ensures
        lines(a + b) == lines(a) + lines(b),
{
    lemma_lines_prefix(a, b, 0, 0);
}

/// The lines of `v`.
pub fn split_lines(v: &Vec<char>) -> (r: Vec<Vec<char>>)
    ensures
        rows(r@) == lines(v@),
{
    let mut out: Vec<Vec<char>> = Vec::new();
    let mut start: usize = 0;
    let mut i: usize = 0;
    while i < v.len()
        invariant
            start <= i <= v.len(),
            lines(v@) == rows(out@) + lines_from(v@, start as int, i as int),
        decreases v.len() - i,
    {
        if v[i] == '\n' {
            let end: usize = if start < i && v[i - 1] == '\r' {
                i - 1
            } else {
                i
            };
            let piece = slice(v, start, end);
            assert(piece@ == strip_cr(v@.subrange(start as int, i as int)));
            let ghost before = rows(out@);
            out.push(piece);
            assert(rows(out@) == before + seq![strip_cr(v@.subrange(start as int, i as int))]);
            start = i + 1;
        }
        i += 1;
    }
    if start < v.len() {
        let piece = slice(v, start, v.len());
        let ghost before = rows(out@);
        out.push(piece);
        assert(rows(out@) == before + seq![v@.subrange(start as int, v.len() as int)]);
    }
    out
}

/// The pieces `parts` in order, with `sep` between each two neighbours.
pub open spec fn join(parts: Seq<Seq<char>>, sep: Seq<char>) -> Seq<char>
    decreases parts.len(),
{
    if parts.len() == 0 {
        Seq::empty()
    } else if parts.len() == 1 {
        parts[0]
    } else {
        join(parts.drop_last(), sep) + sep + parts.last()
    }
}

/// The pieces `parts[from..to]` in order, with `sep` between each two
/// neighbours.
pub fn join_range(parts: &Vec<Vec<char>>, from: usize, to: usize, sep: &Vec<char>) -> (r: Vec<char>)
    requires
        from <= to <= parts.len(),
    ensures
        r@ == join(rows(parts@).subrange(from as int, to as int), sep@),
{
    let mut out: Vec<char> = Vec::new();
    let mut i: usize = from;
    while i < to
        invariant
            from <= i <= to <= parts.len(),
            out@ == join(rows(parts@).subrange(from as int, i as int), sep@),
        decreases to - i,
    {
        let ghost done = rows(parts@).subrange(from as int, i as int);
        let ghost next = rows(parts@).subrange(from as int, i + 1);
        assert(next.drop_last() == done);
        assert(next.last() == parts@[i as int]@);
        if i > from {
            extend(&mut out, sep);
        }
        extend(&mut out, &parts[i]);
        i += 1;
    }
    out
}

/// The strings that hold the character sequences of `v`, in order.
pub fn to_texts(v: &Vec<Vec<char>>) -> (r: Vec<String>)
    ensures
        texts(r@) == rows(v@),
{
    let mut out: Vec<String> = Vec::new();
    let mut i: usize = 0;
    while i < v.len()
        invariant
            i <= v.len(),
            texts(out@) == rows(v@).take(i as int),
        decreases v.len() - i,
    {
        let ghost before = texts(out@);
        out.push(to_text(&v[i]));
        assert(texts(out@) == before.push(v@[i as int]@));
        i += 1;
    }
    out
}

/// The character vectors of the strings of `v`, in order.
pub fn to_rows(v: &Vec<String>) -> (r: Vec<Vec<char>>)
    ensures
        rows(r@) == texts(v@),
{
    let mut out: Vec<Vec<char>> = Vec::new();
    let mut i: usize = 0;
    while i < v.len()
        invariant
            i <= v.len(),
            rows(out@) == texts(v@).take(i as int),
        decreases v.len() - i,
    {
        let ghost before = rows(out@);
        out.push(to_chars(v[i].as_str()));
        assert(rows(out@) == before.push(v@[i as int]@));
        i += 1;
    }
    out
}

/// Copies a list of strings.
pub fn copy_texts(v: &Vec<String>) -> (r: Vec<String>)
    ensures
        texts(r@) == texts(v@),
{
    let mut out: Vec<String> = Vec::new();
    let mut i: usize = 0;
    while i < v.len()
        invariant
            i <= v.len(),
            texts(out@) == texts(v@).take(i as int),
        decreases v.len() - i,
    {
        let ghost before = texts(out@);
        out.push(v[i].clone());
        assert(texts(out@) == before.push(v@[i as int]@));
        i += 1;
    }
    out
}

/// Whether `c` does not occur in `s`.
pub open spec fn lacks(s: Seq<char>, c: char) -> bool {
    forall|i: int| 0 <= i < s.len() ==> #[trigger] s[i] != c
}

/// Whether none of the characters of `seps` occurs in `s`.
pub open spec fn lacks_all(s: Seq<char>, seps: Seq<char>) -> bool {
    forall|i: int| 0 <= i < s.len() ==> !seps.contains(#[trigger] s[i])
}

/// A joined list whose first piece is `x` is `x`, the separator and the
/// rest joined.
pub proof fn lemma_join_first(x: Seq<char>, rest: Seq<Seq<char>>, sep: Seq<char>)
    requires
        rest.len() > 0,
    ensures
        join(seq![x] + rest, sep) == x + sep + join(rest, sep),
    decreases rest.len(),
{
    let all = seq![x] + rest;
    assert(all.drop_last() =~= seq![x] + rest.drop_last());
    assert(all.last() == rest.last());
    if rest.len() == 1 {
        assert(seq![x] + rest.drop_last() =~= seq![x]);
        assert(join(seq![x], sep) == x);
        assert(join(rest, sep) == rest[0]);
    } else {
        lemma_join_first(x, rest.drop_last(), sep);
        assert(x + sep + join(rest.drop_last(), sep) + sep + rest.last() =~= x + sep + (join(
            rest.drop_last(),
            sep,
        ) + sep + rest.last()));
    }
}

/// The pieces of a text that stands behind another are those of the text
/// alone.
pub proof fn lemma_split_shift(a: Seq<char>, b: Seq<char>, seps: Seq<char>, start: int, i: int)
    requires
        0 <= start <= i,
        start <= b.len(),
    ensures
        split_from(a + b, seps, a.len() + start, a.len() + i) == split_from(b, seps, start, i),
    decreases b.len() - i,
{
    let s = a + b;
    if i >= b.len() {
        assert(s.subrange(a.len() + start, s.len() as int) =~= b.subrange(start, b.len() as int));
    } else {
        assert(s[a.len() + i] == b[i]);
        if seps.contains(b[i]) {
            assert(s.subrange(a.len() + start, a.len() + i) =~= b.subrange(start, i));
            lemma_split_shift(a, b, seps, i + 1, i + 1);
        } else {
            lemma_split_shift(a, b, seps, start, i + 1);
        }
    }
}

/// A text without separators is its own single piece.
pub proof fn lemma_split_none(a: Seq<char>, seps: Seq<char>, i: int)
    requires
        lacks_all(a, seps),
        0 <= i <= a.len(),
    ensures
        split_from(a, seps, 0, i) == seq![a],
    decreases a.len() - i,
{
    if i >= a.len() {
        assert(a.subrange(0, a.len() as int) =~= a);
    } else {
        lemma_split_none(a, seps, i + 1);
    }
}

/// Where `a` holds no separator and `c` is one, the pieces of `a`, `c` and
/// `b` one behind the other are `a` and then the pieces of `b`.
pub proof fn lemma_split_at(a: Seq<char>, c: char, b: Seq<char>, seps: Seq<char>, i: int)
    requires
        lacks_all(a, seps),
        seps.contains(c),
        0 <= i <= a.len(),
    ensures
        split_from(a + seq![c] + b, seps, 0, i) == seq![a] + split(b, seps),
    decreases a.len() - i,
{
    let s = a + seq![c] + b;
    if i == a.len() {
        assert(s[i] == c);
        assert(s.subrange(0, i) =~= a);
        assert(s =~= (a + seq![c]) + b);
        lemma_split_shift(a + seq![c], b, seps, 0, 0);
    } else {
        assert(s[i] == a[i]);
        lemma_split_at(a, c, b, seps, i + 1);
    }
}

/// A text without a line feed, with a line feed behind it, is one line.
pub proof fn lemma_lines_single(h: Seq<char>, i: int)
    requires
        lacks(h, '\n'),
        0 <= i <= h.len(),
    ensures
        lines_from(h + seq!['\n'], 0, i) == seq![strip_cr(h)],
    decreases h.len() - i,
{
    let s = h + seq!['\n'];
    if i == h.len() {
        assert(s[i] == '\n');
        assert(s.subrange(0, i) =~= h);
        assert(lines_from(s, i + 1, i + 1) =~= Seq::<Seq<char>>::empty());
        assert(seq![strip_cr(h)] + Seq::<Seq<char>>::empty() =~= seq![strip_cr(h)]);
    } else {
        assert(s[i] == h[i]);
        lemma_lines_single(h, i + 1);
    }
}

/// Whether no line feed of `s` stands behind a carriage return.
pub open spec fn no_crlf(s: Seq<char>) -> bool {
    forall|i: int| 0 < i < s.len() && #[trigger] s[i] == '\n' ==> s[i - 1] != '\r'
}

/// A text that does not end where it begins has a line.
pub proof fn lemma_lines_some(s: Seq<char>, start: int, i: int)
    requires
        0 <= start <= i,
        start < s.len(),
    ensures
        lines_from(s, start, i).len() > 0,
    decreases s.len() - i,
{
    if i < s.len() && s[i] != '\n' {
        lemma_lines_some(s, start, i + 1);
    }
}

/// The lines of a text that ends with a line feed and has no carriage
/// return before a line feed, each with a line feed behind it, are the
/// text.
pub proof fn lemma_join_lines(s: Seq<char>, start: int, i: int)
    requires
        0 <= start <= i <= s.len(),
        start < s.len(),
        s.last() == '\n',
        no_crlf(s),
        forall|k: int| start <= k < i ==> s[k] != '\n',
    ensures
        join(lines_from(s, start, i), seq!['\n']) + seq!['\n'] == s.subrange(
            start,
            s.len() as int,
        ),
    decreases s.len() - i,
{
    let nl = seq!['\n'];
    if i == s.len() {
        assert(s[s.len() - 1] == '\n');
    } else if s[i] == '\n' {
        let x = s.subrange(start, i);
        if x.len() > 0 {
            assert(x.last() == s[i - 1]);
        }
        assert(strip_cr(x) == x);
        let rest = lines_from(s, i + 1, i + 1);
        if i + 1 == s.len() {
            assert(rest =~= Seq::<Seq<char>>::empty());
            assert(seq![x] + rest =~= seq![x]);
            assert(join(seq![x], nl) == x);
            assert(x + nl =~= s.subrange(start, s.len() as int));
        } else {
            lemma_lines_some(s, i + 1, i + 1);
            lemma_join_lines(s, i + 1, i + 1);
            lemma_join_first(x, rest, nl);
            assert(x + nl + join(rest, nl) + nl =~= x + nl + (join(rest, nl) + nl));
            assert(x + nl + s.subrange(i + 1, s.len() as int) =~= s.subrange(
                start,
                s.len() as int,
            ));
        }
    } else {
        lemma_join_lines(s, start, i + 1);
    }
}

/// Whether `mark` stands at the beginning of no line of `s`.
pub open spec fn no_line_begins(s: Seq<char>, mark: Seq<char>) -> bool {
    forall|p: int|
        0 <= p <= s.len() && (p == 0 || s[p - 1] == '\n') ==> !#[trigger] occurs_at(s, mark, p)
}

/// Where `mark` stands at the beginning of no line of a text, none of its
/// lines begins with `mark`.
pub proof fn lemma_lines_lack_mark(s: Seq<char>, mark: Seq<char>, start: int, i: int)
    requires
        no_line_begins(s, mark),
        mark.len() > 0,
        0 <= start <= i <= s.len(),
        start == 0 || s[start - 1] == '\n',
        forall|k: int| start <= k < i ==> s[k] != '\n',
    ensures
        forall|k: int|
            0 <= k < lines_from(s, start, i).len() ==> !has_prefix(
                #[trigger] lines_from(s, start, i)[k],
                mark,
            ),
    decreases s.len() - i,
{
    let n = mark.len() as int;
    assert(!occurs_at(s, mark, start));
    let all = lines_from(s, start, i);
    if i >= s.len() {
        if start < s.len() {
            let x = s.subrange(start, s.len() as int);
            assert(all =~= seq![x]);
            if has_prefix(x, mark) {
                assert(x.subrange(0, n) =~= s.subrange(start, start + n));
                assert(occurs_at(s, mark, start));
            }
            assert forall|k: int| 0 <= k < all.len() implies !has_prefix(#[trigger] all[k], mark) by {
                assert(all[k] == x);
            }
        } else {
            assert(all =~= Seq::<Seq<char>>::empty());
        }
    } else if s[i] == '\n' {
        let x = s.subrange(start, i);
        let line = strip_cr(x);
        if has_prefix(line, mark) {
            assert(line.subrange(0, n) =~= s.subrange(start, start + n));
            assert(occurs_at(s, mark, start));
        }
        lemma_lines_lack_mark(s, mark, i + 1, i + 1);
        let rest = lines_from(s, i + 1, i + 1);
        assert(all == seq![line] + rest);
        assert forall|k: int| 0 <= k < all.len() implies !has_prefix(#[trigger] all[k], mark) by {
            if k > 0 {
                assert(all[k] == rest[k - 1]);
            } else {
                assert(all[k] == line);
            }
        }
    } else {
        lemma_lines_lack_mark(s, mark, start, i + 1);
        assert(all == lines_from(s, start, i + 1));
    }
}

} // verus!
