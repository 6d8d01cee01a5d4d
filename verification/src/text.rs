//! Text as sequences of characters: searching, splitting, trimming, joining, ordering.

use vstd::prelude::*;

verus! {

/// `str` equality compares the characters.
pub assume_specification[ <str as PartialEq>::eq ](a: &str, b: &str) -> (r: bool)
    ensures
        r == (a@ == b@),
;

/// `String::push` appends one character.
pub assume_specification[ String::push ](s: &mut String, c: char)
    ensures
        final(s)@ == old(s)@.push(c),
;

/// A text as `Debug` shows it: in double quotes, with special characters escaped.
pub uninterp spec fn quoted(s: Seq<char>) -> Seq<char>;

/// Printable ASCII characters that stand for themselves between double quotes.
pub open spec fn is_plain(s: Seq<char>) -> bool {
    forall|i: int|
        0 <= i < s.len() ==> ' ' <= #[trigger] s[i] <= '~' && s[i] != '"' && s[i] != '\\'
}

/// The `Debug` form of `str`: the result depends on the text alone, and a plain text only
/// gets its quotes.
#[verifier::external_body]
pub(crate) fn quote(s: &str) -> (r: String)
    ensures
        r@ == quoted(s@),
        is_plain(s@) ==> r@ == seq!['"'] + s@ + seq!['"'],
{
    format!("{s:?}")
}

/// The characters of each string of a list.
pub open spec fn texts(v: Seq<String>) -> Seq<Seq<char>> {
    Seq::new(v.len(), |i: int| v[i]@)
}

/// The characters of an optional string.
pub open spec fn opt_text(o: Option<String>) -> Option<Seq<char>> {
    match o {
        Some(s) => Some(s@),
        None => None,
    }
}

/// The position of the first `x` in `s`, or the length of `s` when there is none.
pub open spec fn first_of<T>(s: Seq<T>, x: T) -> int
    decreases s.len(),
{
    if s.len() == 0 {
        0
    } else if s[0] == x {
        0
    } else {
        1 + first_of(s.skip(1), x)
    }
}

/// What stands before and after the first `c`.
pub open spec fn split_once(s: Seq<char>, c: char) -> Option<(Seq<char>, Seq<char>)> {
    let i = first_of(s, c);
    if i < s.len() {
        Some((s.take(i), s.skip(i + 1)))
    } else {
        None
    }
}

/// `first_of` is the only position with no `x` before it and an `x` (or the end) at it.
pub proof fn lemma_first_of<T>(s: Seq<T>, x: T, i: int)
    requires
        0 <= i <= s.len(),
        forall|j: int| 0 <= j < i ==> s[j] != x,
        i < s.len() ==> s[i] == x,
    ensures
        first_of(s, x) == i,
    decreases s.len(),
{
    if s.len() > 0 && i > 0 {
        assert(s[0] != x);
        let t = s.skip(1);
        assert forall|j: int| 0 <= j < i - 1 implies t[j] != x by {
            assert(t[j] == s[j + 1]);
        }
        lemma_first_of(t, x, i - 1);
    }
}

/// `first_of` lies within the sequence, finds an `x`, and nothing before it is one.
pub proof fn lemma_first_of_bounds<T>(s: Seq<T>, x: T)
    ensures
        0 <= first_of(s, x) <= s.len(),
        first_of(s, x) < s.len() ==> s[first_of(s, x)] == x,
        forall|j: int| 0 <= j < first_of(s, x) ==> s[j] != x,
    decreases s.len(),
{
    if s.len() > 0 && s[0] != x {
        let t = s.skip(1);
        lemma_first_of_bounds(t, x);
        assert forall|j: int| 0 <= j < first_of(s, x) implies s[j] != x by {
            if j > 0 {
                assert(t[j - 1] == s[j]);
            }
        }
    }
}

/// Whether two strings hold the same characters.
pub fn same(a: &str, b: &str) -> (r: bool)
    ensures
        r == (a@ == b@),
{
    *a == *b
}

/// A new string with the same characters.
pub fn copy(s: &str) -> (r: String)
    ensures
        r@ == s@,
{
    s.to_owned()
}

/// A copy of an optional string.
pub fn copy_opt(o: &Option<String>) -> (r: Option<String>)
    ensures
        opt_text(r) == opt_text(*o),
{
    match o {
        Some(s) => Some(copy(s.as_str())),
        None => None,
    }
}

/// Copies of all strings of a list.
pub fn copy_all(v: &[String]) -> (r: Vec<String>)
    ensures
        texts(r@) == texts(v@),
{
    let mut out: Vec<String> = Vec::new();
    for i in 0..v.len()
        invariant
            out.len() == i,
            forall|j: int| 0 <= j < i ==> out[j]@ == v[j]@,
    {
        out.push(copy(v[i].as_str()));
    }
    assert(texts(out@) =~= texts(v@));
    out
}

/// Two strings put together.
pub fn concat2(a: &str, b: &str) -> (r: String)
    ensures
        r@ == a@ + b@,
{
    let mut s = copy(a);
    s.append(b);
    s
}

/// Three strings put together.
pub fn concat3(a: &str, b: &str, c: &str) -> (r: String)
    ensures
        r@ == a@ + b@ + c@,
{
    let mut s = copy(a);
    s.append(b);
    s.append(c);
    s
}

/// The characters of a string as a list.
pub fn chars_of(s: &str) -> (r: Vec<char>)
    ensures
        r@ == s@,
{
    let mut v: Vec<char> = Vec::new();
    for c in it: s.chars()
        invariant
            v@ == it.seq().take(it.index() as int),
            it.seq() == s@,
    {
        v.push(c);
    }
    v
}

/// The string made of the characters from `from` up to `to`.
pub fn text_range(cs: &[char], from: usize, to: usize) -> (r: String)
    requires
        from <= to <= cs@.len(),
    ensures
        r@ == cs@.subrange(from as int, to as int),
{
    let mut s = String::new();
    for i in from..to
        invariant
            from <= i <= to <= cs@.len(),
            s@ == cs@.subrange(from as int, i as int),
    {
        s.push(cs[i]);
        assert(cs@.subrange(from as int, i + 1) =~= cs@.subrange(from as int, i as int).push(
            cs@[i as int],
        ));
    }
    s
}

/// The position of the first `c`, or the length when there is none.
pub fn find_char(cs: &[char], c: char) -> (r: usize)
    ensures
        r == first_of(cs@, c),
        r <= cs@.len(),
{
    let mut i: usize = 0;
    while i < cs.len() && cs[i] != c
        invariant
            i <= cs@.len(),
            forall|j: int| 0 <= j < i ==> cs@[j] != c,
        decreases cs@.len() - i,
    {
        i += 1;
    }
    proof {
        lemma_first_of(cs@, c, i as int);
    }
    i
}

/// What stands before and after the first `c`, if there is one.
pub fn split_once_char(s: &str, c: char) -> (r: Option<(String, String)>)
    ensures
        match r {
            Some((a, b)) => split_once(s@, c) == Some((a@, b@)),
            None => split_once(s@, c) is None,
        },
{
    let cs = chars_of(s);
    let i: usize = find_char(cs.as_slice(), c);
    if i < cs.len() {
        let a = text_range(cs.as_slice(), 0, i);
        let b = text_range(cs.as_slice(), i + 1, cs.len());
        assert(cs@.subrange(0, i as int) =~= cs@.take(i as int));
        assert(cs@.subrange(i + 1, cs@.len() as int) =~= cs@.skip(i + 1));
        Some((a, b))
    } else {
        None
    }
}

/// Whether `s` begins with `p`.
pub open spec fn has_prefix(s: Seq<char>, p: Seq<char>) -> bool {
    p.len() <= s.len() && s.take(p.len() as int) == p
}

/// What follows the prefix `p`, if `s` begins with it.
pub open spec fn strip(s: Seq<char>, p: Seq<char>) -> Option<Seq<char>> {
    if has_prefix(s, p) {
        Some(s.skip(p.len() as int))
    } else {
        None
    }
}

/// Whether `p` is one of the parts of `s` that stand between the characters `c`.
pub open spec fn has_part(s: Seq<char>, c: char, p: Seq<char>) -> bool
    decreases s.len(),
{
    let i = first_of(s, c);
    if 0 <= i < s.len() {
        s.take(i) == p || has_part(s.skip(i + 1), c, p)
    } else {
        s == p
    }
}

/// Whether `p` is one of the parts of `s` that stand between the characters `c`.
pub fn any_part(s: &str, c: char, p: &str) -> (r: bool)
    ensures
        r == has_part(s@, c, p@),
{
    let cs = chars_of(s);
    let mut from: usize = 0;
    assert(s@.skip(0) =~= s@);
    loop
        invariant
            cs@ == s@,
            from <= cs@.len(),
            has_part(s@, c, p@) == has_part(s@.skip(from as int), c, p@),
        decreases cs@.len() - from,
    {
        let ghost rest = s@.skip(from as int);
        let mut i: usize = from;
        while i < cs.len() && cs[i] != c
            invariant
                cs@ == s@,
                from <= i <= cs@.len(),
                rest == s@.skip(from as int),
                forall|j: int| 0 <= j < i - from ==> rest[j] != c,
            decreases cs@.len() - i,
        {
            assert(rest[i - from] == cs@[i as int]);
            i += 1;
        }
        let part = text_range(cs.as_slice(), from, i);
        proof {
            if i < cs@.len() {
                assert(rest[i - from] == c);
            }
            lemma_first_of(rest, c, i - from);
            assert(part@ =~= rest.take(i - from));
        }
        if same(part.as_str(), p) {
            assert(i == cs@.len() ==> part@ =~= rest);
            return true;
        }
        if i == cs.len() {
            assert(part@ =~= rest);
            return false;
        }
        assert(rest.skip(i - from + 1) =~= s@.skip(i + 1));
        from = i + 1;
    }
}

/// Whether `s` begins with `p`.
pub fn starts_with(s: &str, p: &str) -> (r: bool)
    ensures
        r == has_prefix(s@, p@),
{
    let cs = chars_of(s);
    let ps = chars_of(p);
    if ps.len() > cs.len() {
        return false;
    }
    for i in 0..ps.len()
        invariant
            ps@ == p@,
            cs@ == s@,
            ps.len() <= cs.len(),
            forall|j: int| 0 <= j < i ==> cs@[j] == ps@[j],
    {
        if cs[i] != ps[i] {
            assert(s@.take(p@.len() as int)[i as int] != p@[i as int]);
            return false;
        }
    }
    assert(s@.take(p@.len() as int) =~= p@);
    true
}

/// What follows the prefix `p`, if `s` begins with it.
pub fn strip_prefix(s: &str, p: &str) -> (r: Option<String>)
    ensures
        opt_text(r) == strip(s@, p@),
{
    if starts_with(s, p) {
        let cs = chars_of(s);
        let n: usize = chars_of(p).len();
        let t = text_range(cs.as_slice(), n, cs.len());
        assert(cs@.subrange(n as int, cs@.len() as int) =~= s@.skip(p@.len() as int));
        Some(t)
    } else {
        None
    }
}

/// The characters with the Unicode property `White_Space`.
pub open spec fn is_white(c: char) -> bool {
    let u = c as u32;
    ||| 0x09 <= u <= 0x0d
    ||| u == 0x20
    ||| u == 0x85
    ||| u == 0xa0
    ||| u == 0x1680
    ||| 0x2000 <= u <= 0x200a
    ||| u == 0x2028
    ||| u == 0x2029
    ||| u == 0x202f
    ||| u == 0x205f
    ||| u == 0x3000
}

/// Whether a character is white space.
pub fn white(c: char) -> (r: bool)
    ensures
        r == is_white(c),
{
    let u: u32 = c as u32;
    (0x09 <= u && u <= 0x0d) || u == 0x20 || u == 0x85 || u == 0xa0 || u == 0x1680 || (0x2000 <= u
        && u <= 0x200a) || u == 0x2028 || u == 0x2029 || u == 0x202f || u == 0x205f || u == 0x3000
}

/// `s` without its leading characters in `set`.
pub open spec fn trim_start_set(s: Seq<char>, set: spec_fn(char) -> bool) -> Seq<char>
    decreases s.len(),
{
    if s.len() > 0 && set(s[0]) {
        trim_start_set(s.skip(1), set)
    } else {
        s
    }
}

/// `s` without its trailing characters in `set`.
pub open spec fn trim_end_set(s: Seq<char>, set: spec_fn(char) -> bool) -> Seq<char>
    decreases s.len(),
{
    if s.len() > 0 && set(s.last()) {
        trim_end_set(s.drop_last(), set)
    } else {
        s
    }
}

/// White space, as a set of characters.
pub open spec fn whites() -> spec_fn(char) -> bool {
    |c: char| is_white(c)
}

/// One character, as a set of characters.
pub open spec fn only(x: char) -> spec_fn(char) -> bool {
    |c: char| c == x
}

/// `s` without the white space at its two ends.
pub open spec fn trimmed(s: Seq<char>) -> Seq<char> {
    trim_end_set(trim_start_set(s, whites()), whites())
}

/// `s` without the `c` at its end.
pub open spec fn without_trailing(s: Seq<char>, c: char) -> Seq<char> {
    trim_end_set(s, only(c))
}

/// `s` without the `c` at its two ends.
pub open spec fn without_both(s: Seq<char>, c: char) -> Seq<char> {
    trim_end_set(trim_start_set(s, only(c)), only(c))
}

pub proof fn lemma_trim_start(s: Seq<char>, set: spec_fn(char) -> bool, i: int)
    requires
        0 <= i <= s.len(),
        forall|j: int| 0 <= j < i ==> set(#[trigger] s[j]),
        i < s.len() ==> !set(s[i]),
    ensures
        trim_start_set(s, set) == s.skip(i),
    decreases s.len(),
{
    if i > 0 {
        assert(set(s[0]));
        let t = s.skip(1);
        assert forall|j: int| 0 <= j < i - 1 implies set(#[trigger] t[j]) by {
            assert(t[j] == s[j + 1]);
        }
        lemma_trim_start(t, set, i - 1);
        assert(t.skip(i - 1) =~= s.skip(i));
    } else {
        assert(s.skip(0) =~= s);
    }
}

pub proof fn lemma_trim_end(s: Seq<char>, set: spec_fn(char) -> bool, i: int)
    requires
        0 <= i <= s.len(),
        forall|j: int| i <= j < s.len() ==> set(#[trigger] s[j]),
        i > 0 ==> !set(s[i - 1]),
    ensures
        trim_end_set(s, set) == s.take(i),
    decreases s.len(),
{
    if i < s.len() {
        assert(set(s[s.len() - 1]));
        let t = s.drop_last();
        assert forall|j: int| i <= j < t.len() implies set(#[trigger] t[j]) by {
            assert(t[j] == s[j]);
        }
        lemma_trim_end(t, set, i);
        assert(t.take(i) =~= s.take(i));
    } else {
        assert(s.take(i) =~= s);
    }
}

/// A string with no white space in it is trimmed already.
pub proof fn lemma_trimmed_id(s: Seq<char>)
    requires
        forall|i: int| 0 <= i < s.len() ==> !is_white(#[trigger] s[i]),
    ensures
        trimmed(s) == s,
{
    if s.len() > 0 {
        assert(!is_white(s[0]));
        assert(!is_white(s[s.len() - 1]));
    }
}

/// `s` without the white space at its two ends.
pub fn trim(s: &str) -> (r: String)
    ensures
        r@ == trimmed(s@),
{
    let cs = chars_of(s);
    let n: usize = cs.len();
    let mut i: usize = 0;
    while i < n && white(cs[i])
        invariant
            n == cs@.len(),
            i <= n,
            forall|j: int| 0 <= j < i ==> whites()(#[trigger] cs@[j]),
        decreases n - i,
    {
        i += 1;
    }
    proof {
        lemma_trim_start(cs@, whites(), i as int);
    }
    let mut k: usize = n;
    while k > i && white(cs[k - 1])
        invariant
            n == cs@.len(),
            i <= k <= n,
            forall|j: int| k <= j < n ==> whites()(#[trigger] cs@[j]),
        decreases k,
    {
        k -= 1;
    }
    proof {
        let t = cs@.skip(i as int);
        assert forall|j: int| k - i <= j < t.len() implies whites()(#[trigger] t[j]) by {
            assert(t[j] == cs@[j + i]);
        }
        lemma_trim_end(t, whites(), k - i);
        assert(t.take(k - i) =~= cs@.subrange(i as int, k as int));
    }
    text_range(cs.as_slice(), i, k)
}

/// `s` without the `c` at its end.
pub fn trim_end_char(s: &str, c: char) -> (r: String)
    ensures
        r@ == without_trailing(s@, c),
{
    let cs = chars_of(s);
    let n: usize = cs.len();
    let mut k: usize = n;
    while k > 0 && cs[k - 1] == c
        invariant
            n == cs@.len(),
            k <= n,
            forall|j: int| k <= j < n ==> only(c)(#[trigger] cs@[j]),
        decreases k,
    {
        k -= 1;
    }
    proof {
        lemma_trim_end(cs@, only(c), k as int);
        assert(cs@.subrange(0, k as int) =~= cs@.take(k as int));
    }
    text_range(cs.as_slice(), 0, k)
}

/// `s` without the `c` at its two ends.
pub fn trim_char(s: &str, c: char) -> (r: String)
    ensures
        r@ == without_both(s@, c),
{
    let cs = chars_of(s);
    let n: usize = cs.len();
    let mut i: usize = 0;
    while i < n && cs[i] == c
        invariant
            n == cs@.len(),
            i <= n,
            forall|j: int| 0 <= j < i ==> only(c)(#[trigger] cs@[j]),
        decreases n - i,
    {
        i += 1;
    }
    proof {
        lemma_trim_start(cs@, only(c), i as int);
        assert(cs@.subrange(i as int, n as int) =~= cs@.skip(i as int));
    }
    let t = text_range(cs.as_slice(), i, n);
    trim_end_char(t.as_str(), c)
}

/// The parts put together with `sep` between them.
pub open spec fn joined(parts: Seq<Seq<char>>, sep: Seq<char>) -> Seq<char>
    decreases parts.len(),
{
    if parts.len() == 0 {
        Seq::empty()
    } else if parts.len() == 1 {
        parts[0]
    } else {
        joined(parts.drop_last(), sep) + sep + parts.last()
    }
}

/// The parts put together with `sep` between them.
pub fn join(parts: &[String], sep: &str) -> (r: String)
    ensures
        r@ == joined(texts(parts@), sep@),
{
    let mut s = String::new();
    for i in 0..parts.len()
        invariant
            s@ == joined(texts(parts@).take(i as int), sep@),
    {
        let ghost before = texts(parts@).take(i as int);
        let ghost after = texts(parts@).take(i + 1);
        if i > 0 {
            s.append(sep);
        }
        s.append(parts[i].as_str());
        proof {
            assert(after.drop_last() =~= before);
            assert(after.last() == parts@[i as int]@);
            if i == 0 {
                assert(s@ =~= after[0]);
            }
        }
    }
    assert(texts(parts@).take(parts@.len() as int) =~= texts(parts@));
    s
}

/// The order of strings: by their first differing characters, a prefix first.
pub open spec fn text_le(a: Seq<char>, b: Seq<char>) -> bool
    decreases a.len(),
{
    if a.len() == 0 {
        true
    } else if b.len() == 0 {
        false
    } else if a[0] != b[0] {
        (a[0] as int) < (b[0] as int)
    } else {
        text_le(a.skip(1), b.skip(1))
    }
}

/// `a` comes before `b` and differs from it.
pub open spec fn text_lt(a: Seq<char>, b: Seq<char>) -> bool {
    text_le(a, b) && a != b
}

/// Any two strings compare.
pub proof fn lemma_text_le_total(a: Seq<char>, b: Seq<char>)
    ensures
        text_le(a, b) || text_le(b, a),
    decreases a.len(),
{
    if a.len() > 0 && b.len() > 0 && a[0] == b[0] {
        lemma_text_le_total(a.skip(1), b.skip(1));
    }
}

/// Strings that come before each other are equal.
pub proof fn lemma_text_le_antisym(a: Seq<char>, b: Seq<char>)
    requires
        text_le(a, b),
        text_le(b, a),
    ensures
        a == b,
    decreases a.len(),
{
    if a.len() > 0 && b.len() > 0 {
        lemma_text_le_antisym(a.skip(1), b.skip(1));
        assert(a =~= seq![a[0]] + a.skip(1));
        assert(b =~= seq![b[0]] + b.skip(1));
    } else {
        assert(a =~= b);
    }
}

/// The order is transitive.
pub proof fn lemma_text_le_trans(a: Seq<char>, b: Seq<char>, c: Seq<char>)
    requires
        text_le(a, b),
        text_le(b, c),
    ensures
        text_le(a, c),
    decreases a.len(),
{
    if a.len() > 0 && a[0] == b[0] && b[0] == c[0] {
        lemma_text_le_trans(a.skip(1), b.skip(1), c.skip(1));
    }
}

/// Whether `a` comes before `b` or equals it.
pub fn le(a: &str, b: &str) -> (r: bool)
    ensures
        r == text_le(a@, b@),
{
    let x = chars_of(a);
    let y = chars_of(b);
    let mut i: usize = 0;
    assert(a@.skip(0) =~= a@);
    assert(b@.skip(0) =~= b@);
    while i < x.len() && i < y.len()
        invariant
            x@ == a@,
            y@ == b@,
            i <= x.len(),
            i <= y.len(),
            text_le(a@, b@) == text_le(a@.skip(i as int), b@.skip(i as int)),
        decreases x.len() - i,
    {
        if x[i] != y[i] {
            return x[i] < y[i];
        }
        assert(a@.skip(i as int).skip(1) =~= a@.skip(i + 1));
        assert(b@.skip(i as int).skip(1) =~= b@.skip(i + 1));
        i += 1;
    }
    i == x.len()
}

/// Texts are ordered by their first difference: the one with the smaller character there comes
/// first, and a text comes before every longer one that it begins.
pub proof fn law_text_order(p: Seq<char>, x: char, y: char, a: Seq<char>, b: Seq<char>)
    ensures
        (x as int) < (y as int) ==> text_lt(p + seq![x] + a, p + seq![y] + b) && !text_le(
            p + seq![y] + b,
            p + seq![x] + a,
        ),
        text_lt(p, p + seq![x] + a),
        !text_le(p + seq![x] + a, p),
        text_le(p, p) && !text_lt(p, p),
    decreases p.len(),
{
    let s = p + seq![x] + a;
    let t = p + seq![y] + b;
    if p.len() == 0 {
        assert(s[0] == x && t[0] == y);
    } else {
        let q = p.skip(1);
        law_text_order(q, x, y, a, b);
        assert(s[0] == p[0] && t[0] == p[0]);
        assert(s.skip(1) =~= q + seq![x] + a);
        assert(t.skip(1) =~= q + seq![y] + b);
    }
    assert(s.len() != p.len());
    assert((x as int) < (y as int) ==> s != t) by {
        assert(s[p.len() as int] == x && t[p.len() as int] == y);
    }
}

/// Texts put together begin with the first of them.
pub proof fn lemma_joined_first(parts: Seq<Seq<char>>, sep: Seq<char>)
    requires
        parts.len() > 1,
    ensures
        joined(parts, sep) == parts[0] + sep + joined(parts.skip(1), sep),
    decreases parts.len(),
{
    let tail = parts.skip(1);
    let front = parts.drop_last();
    if parts.len() == 2 {
        assert(front =~= seq![parts[0]]);
        assert(tail =~= seq![parts[1]]);
        assert(joined(front, sep) == parts[0] && joined(tail, sep) == parts[1]);
        assert(parts.last() == parts[1]);
    } else {
        lemma_joined_first(front, sep);
        assert(front.skip(1) =~= tail.drop_last());
        assert(front[0] == parts[0]);
        assert(tail.last() == parts.last());
        assert(joined(parts, sep) =~= parts[0] + sep + joined(tail, sep));
    }
}

/// The parts of a text between the characters `c` are the texts that it was put together from, if
/// none of them holds that character.
pub proof fn law_parts(parts: Seq<Seq<char>>, c: char, p: Seq<char>)
    requires
        parts.len() > 0,
        forall|i: int| 0 <= i < parts.len() ==> !(#[trigger] parts[i]).contains(c),
    ensures
        has_part(joined(parts, seq![c]), c, p) <==> parts.contains(p),
    decreases parts.len(),
{
    let s = joined(parts, seq![c]);
    let first = parts[0];
    assert(!first.contains(c));
    assert forall|j: int| 0 <= j < first.len() implies first[j] != c by {
        assert(first.contains(first[j]));
    }
    if parts.len() == 1 {
        assert(s == first);
        lemma_first_of(s, c, s.len() as int);
        if parts.contains(p) {
            let i = choose|i: int| 0 <= i < parts.len() && parts[i] == p;
            assert(i == 0);
        }
        assert(parts.contains(first));
    } else {
        let tail = parts.skip(1);
        lemma_joined_first(parts, seq![c]);
        let rest = joined(tail, seq![c]);
        assert(s =~= first + seq![c] + rest);
        lemma_first_of(s, c, first.len() as int);
        assert(s.take(first.len() as int) =~= first);
        assert(s.skip(first.len() as int + 1) =~= rest);
        assert forall|i: int| 0 <= i < tail.len() implies !(#[trigger] tail[i]).contains(c) by {
            assert(tail[i] == parts[i + 1]);
        }
        law_parts(tail, c, p);
        if parts.contains(p) {
            let i = choose|i: int| 0 <= i < parts.len() && parts[i] == p;
            if i > 0 {
                assert(tail[i - 1] == p);
            }
        }
        if tail.contains(p) {
            let i = choose|i: int| 0 <= i < tail.len() && tail[i] == p;
            assert(parts[i + 1] == p);
        }
        assert(parts.contains(first));
    }
}

/// Trimming takes away the white space around a text, all of it, and nothing else.
pub proof fn law_trimmed(a: Seq<char>, s: Seq<char>, b: Seq<char>)
    requires
        forall|i: int| 0 <= i < a.len() ==> is_white(#[trigger] a[i]),
        forall|i: int| 0 <= i < b.len() ==> is_white(#[trigger] b[i]),
        s.len() > 0,
        !is_white(s[0]),
        !is_white(s.last()),
    ensures
        trimmed(a + s + b) == s,
{
    let all = a + s + b;
    lemma_trim_start(all, whites(), a.len() as int);
    let rest = all.skip(a.len() as int);
    assert(rest =~= s + b);
    lemma_trim_end(rest, whites(), s.len() as int);
    assert(rest.take(s.len() as int) =~= s);
}

/// White space are the ASCII control characters from the tab to the carriage return, the space, and
/// the Unicode spaces and separators beyond ASCII; everything that can be seen is none.
pub proof fn law_white_space(c: char)
    ensures
        c == ' ' || c == '\t' || c == '\n' || c == '\r' ==> is_white(c),
        33 <= c as int <= 126 ==> !is_white(c),
        is_white(c) ==> c as int <= 32 || c as int == 0x85 || c as int == 0xa0 || c as int >= 0x1680,
        c as int == 0x85 || c as int == 0xa0 || c as int == 0x1680 || 0x2000 <= c as int <= 0x200a
            || c as int == 0x2028 || c as int == 0x2029 || c as int == 0x202f || c as int == 0x205f
            || c as int == 0x3000 ==> is_white(c),
        c as int > 0x3000 || (c as int) < 9 ==> !is_white(c),
{
}

/// All of a character around a text can be taken away, or all of it at its end.
pub proof fn law_without(a: Seq<char>, s: Seq<char>, b: Seq<char>, c: char)
    requires
        forall|i: int| 0 <= i < a.len() ==> #[trigger] a[i] == c,
        forall|i: int| 0 <= i < b.len() ==> #[trigger] b[i] == c,
        s.len() > 0,
        s[0] != c,
        s.last() != c,
    ensures
        without_both(a + s + b, c) == s,
        without_trailing(s + b, c) == s,
        without_trailing(a + s + b, c) == a + s,
        without_trailing(b, c).len() == 0,
        without_both(b, c).len() == 0,
{
    let all = a + s + b;
    lemma_trim_start(all, only(c), a.len() as int);
    let rest = all.skip(a.len() as int);
    assert(rest =~= s + b);
    lemma_trim_end(rest, only(c), s.len() as int);
    assert(rest.take(s.len() as int) =~= s);
    lemma_trim_end(all, only(c), (a + s).len() as int);
    assert(all.take((a + s).len() as int) =~= a + s);
    lemma_trim_end(b, only(c), 0);
    lemma_trim_start(b, only(c), b.len() as int);
    lemma_trim_end(Seq::empty(), only(c), 0);
    assert(b.skip(b.len() as int) =~= Seq::<char>::empty());
}

/// A text comes apart at the first of a character; without one it does not.
pub proof fn law_split_once(a: Seq<char>, c: char, b: Seq<char>)
    requires
        !a.contains(c),
    ensures
        split_once(a + seq![c] + b, c) == Some((a, b)),
        split_once(a, c) is None,
{
    let s = a + seq![c] + b;
    assert forall|j: int| 0 <= j < a.len() implies a[j] != c by {
        assert(a.contains(a[j]));
    }
    lemma_first_of(s, c, a.len() as int);
    lemma_first_of(a, c, a.len() as int);
    assert(s.take(a.len() as int) =~= a);
    assert(s.skip(a.len() as int + 1) =~= b);
}

} // verus!
