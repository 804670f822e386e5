//! Text as sequences of characters: searching, splitting, trimming, number
//! formatting and parsing, letter case, and ordering.

use vstd::prelude::*;
use vstd::string::*;

verus! {

// ---------------------------------------------------------------------------
// Building and taking apart
// ---------------------------------------------------------------------------

/// `String::push` appends the given character to the end of the string.
pub assume_specification[ String::push ](s: &mut String, c: char)
    ensures
        final(s)@ == old(s)@.push(c),
;

/// The characters of a text, in order.
pub fn chars_of(s: &str) -> (r: Vec<char>)
    ensures
        r@ == s@,
{
    let mut out: Vec<char> = Vec::new();
    for c in it: s.chars()
        invariant
            it.seq() == s@,
            out@ == s@.take(it.index()),
    {
        proof {
            assert(s@.take(it.index() + 1) == s@.take(it.index()).push(s@[it.index()]));
        }
        out.push(c);
    }
    proof {
        assert(s@.take(s@.len() as int) == s@);
    }
    out
}

/// The text made of the characters `v[from..to]`.
pub fn string_of(v: &Vec<char>, from: usize, to: usize) -> (r: String)
    requires
        from <= to <= v@.len(),
    ensures
        r@ == v@.subrange(from as int, to as int),
{
    let mut out = String::new();
    for i in from..to
        invariant
            from <= to <= v@.len(),
            out@ == v@.subrange(from as int, i as int),
    {
        proof {
            assert(v@.subrange(from as int, i + 1) == v@.subrange(from as int, i as int).push(
                v@[i as int],
            ));
        }
        out.push(v[i]);
    }
    out
}

/// Whether two texts hold the same characters.
pub fn text_eq(a: &str, b: &str) -> (r: bool)
    ensures
        r == (a@ == b@),
{
    let x = chars_of(a);
    let y = chars_of(b);
    if x.len() != y.len() {
        return false;
    }
    for i in 0..x.len()
        invariant
            x@ == a@,
            y@ == b@,
            x@.len() == y@.len(),
            forall|j: int| 0 <= j < i ==> x@[j] == y@[j],
    {
        if x[i] != y[i] {
            assert(a@[i as int] != b@[i as int]);
            return false;
        }
    }
    assert(x@ =~= y@);
    true
}

/// The views of a list of texts.
pub open spec fn texts(v: Seq<String>) -> Seq<Seq<char>> {
    v.map_values(|t: String| t@)
}

/// The view of an optional text.
pub open spec fn opt_text(o: Option<String>) -> Option<Seq<char>> {
    match o {
        Some(s) => Some(s@),
        None => None,
    }
}

/// A copy of an optional text.
pub fn clone_opt(o: &Option<String>) -> (r: Option<String>)
    ensures
        r == *o,
{
    match o {
        Some(s) => Some(s.clone()),
        None => None,
    }
}

/// A copy of a list of texts.
pub fn clone_texts(v: &Vec<String>) -> (r: Vec<String>)
    ensures
        r@ == v@,
{
    let mut out: Vec<String> = Vec::new();
    for i in 0..v.len()
        invariant
            out@ == v@.take(i as int),
    {
        proof {
            assert(v@.take(i + 1) == v@.take(i as int).push(v@[i as int]));
        }
        out.push(v[i].clone());
    }
    proof {
        assert(v@.take(v@.len() as int) == v@);
    }
    out
}

/// Whether `list` holds the text `t`.
pub fn list_has(list: &Vec<String>, t: &str) -> (r: bool)
    ensures
        r == texts(list@).contains(t@),
{
    for i in 0..list.len()
        invariant
            forall|j: int| 0 <= j < i ==> #[trigger] list@[j]@ != t@,
    {
        if text_eq(list[i].as_str(), t) {
            assert(texts(list@)[i as int] == t@);
            return true;
        }
    }
    proof {
        assert forall|j: int| 0 <= j < texts(list@).len() implies texts(list@)[j] != t@ by {
            assert(list@[j]@ != t@);
        }
    }
    false
}

/// The parts joined with `sep` between neighbours.
pub open spec fn join(parts: Seq<Seq<char>>, sep: Seq<char>) -> Seq<char>
    decreases parts.len(),
{
    if parts.len() == 0 {
        Seq::empty()
    } else if parts.len() == 1 {
        parts[0]
    } else {
        join(parts.drop_last(), sep) + sep + parts.last()
    }
}

/// Joins the parts with `sep` between neighbours.
pub fn join_texts(parts: &Vec<String>, sep: &str) -> (r: String)
    ensures
        r@ == join(texts(parts@), sep@),
{
    let mut out = String::new();
    let ghost ps = texts(parts@);
    for i in 0..parts.len()
        invariant
            ps == texts(parts@),
            out@ == join(ps.take(i as int), sep@),
    {
        proof {
            assert(ps.take(i + 1).drop_last() =~= ps.take(i as int));
            assert(ps.take(i + 1).last() == parts@[i as int]@);
        }
        if i > 0 {
            out.append(sep);
        }
        out.append(parts[i].as_str());
        proof {
            if i == 0 {
                assert(out@ =~= ps.take(1)[0]);
            }
        }
    }
    proof {
        assert(ps.take(ps.len() as int) =~= ps);
    }
    out
}

// ---------------------------------------------------------------------------
// Runs of characters
// ---------------------------------------------------------------------------

/// How many characters at the start of `s` satisfy `p` before the first that
/// does not.
pub open spec fn leading(s: Seq<char>, p: spec_fn(char) -> bool) -> nat
    decreases s.len(),
{
    if s.len() == 0 || !p(s[0]) {
        0
    } else {
        1 + leading(s.drop_first(), p)
    }
}

/// How many characters at the end of `s` satisfy `p` after the last that does
/// not.
pub open spec fn trailing(s: Seq<char>, p: spec_fn(char) -> bool) -> nat
    decreases s.len(),
{
    if s.len() == 0 || !p(s.last()) {
        0
    } else {
        1 + trailing(s.drop_last(), p)
    }
}

/// `leading` is the one length that splits `s` into characters with `p` and a
/// rest that does not start with one.
pub proof fn lemma_leading(s: Seq<char>, p: spec_fn(char) -> bool, n: int)
    requires
        0 <= n <= s.len(),
        forall|i: int| 0 <= i < n ==> p(#[trigger] s[i]),
        n < s.len() ==> !p(s[n]),
    ensures
        leading(s, p) == n,
    decreases n,
{
    if n > 0 {
        assert(p(s[0]));
        assert forall|i: int| 0 <= i < n - 1 implies p(#[trigger] s.drop_first()[i]) by {
            assert(s.drop_first()[i] == s[i + 1]);
        }
        lemma_leading(s.drop_first(), p, n - 1);
    }
}

/// What `leading` counts.
pub proof fn lemma_leading_bound(s: Seq<char>, p: spec_fn(char) -> bool)
    ensures
        leading(s, p) <= s.len(),
        forall|i: int| 0 <= i < leading(s, p) ==> p(#[trigger] s[i]),
        leading(s, p) < s.len() ==> !p(s[leading(s, p) as int]),
    decreases s.len(),
{
    if s.len() > 0 && p(s[0]) {
        let t = s.drop_first();
        lemma_leading_bound(t, p);
        assert forall|i: int| 0 <= i < leading(s, p) implies p(#[trigger] s[i]) by {
            if i > 0 {
                assert(t[i - 1] == s[i]);
            }
        }
    }
}

/// `trailing` is the one length that splits `s` into a part that does not end
/// with a character with `p` and a rest of such characters.
pub proof fn lemma_trailing(s: Seq<char>, p: spec_fn(char) -> bool, n: int)
    requires
        0 <= n <= s.len(),
        forall|i: int| s.len() - n <= i < s.len() ==> p(#[trigger] s[i]),
        n < s.len() ==> !p(s[s.len() - n - 1]),
    ensures
        trailing(s, p) == n,
    decreases n,
{
    if n > 0 {
        assert(p(s[s.len() - 1]));
        lemma_trailing(s.drop_last(), p, n - 1);
    }
}

/// What `trailing` counts.
pub proof fn lemma_trailing_bound(s: Seq<char>, p: spec_fn(char) -> bool)
    ensures
        trailing(s, p) <= s.len(),
        forall|i: int| s.len() - trailing(s, p) <= i < s.len() ==> p(#[trigger] s[i]),
        trailing(s, p) < s.len() ==> !p(s[s.len() - trailing(s, p) - 1]),
    decreases s.len(),
{
    if s.len() > 0 && p(s.last()) {
        let t = s.drop_last();
        lemma_trailing_bound(t, p);
        assert forall|i: int| s.len() - trailing(s, p) <= i < s.len() implies p(
            #[trigger] s[i],
        ) by {
            if i < s.len() - 1 {
                assert(t[i] == s[i]);
            }
        }
    }
}

/// The place of the first `c` at or after `from`, or the length of `v`.
pub fn find_char(v: &Vec<char>, c: char, from: usize) -> (r: usize)
    requires
        from <= v@.len(),
    ensures
        from <= r <= v@.len(),
        forall|i: int| from <= i < r ==> v@[i] != c,
        r < v@.len() ==> v@[r as int] == c,
{
    let mut i: usize = from;
    while i < v.len()
        invariant
            from <= i <= v@.len(),
            forall|j: int| from <= j < i ==> v@[j] != c,
        decreases v@.len() - i,
    {
        if v[i] == c {
            return i;
        }
        i = i + 1;
    }
    i
}

/// The characters other than `c`.
pub open spec fn other_than(c: char) -> spec_fn(char) -> bool {
    |x: char| x != c
}

/// The part of `s` before the first `c`, or all of `s`.
pub open spec fn before_first(s: Seq<char>, c: char) -> Seq<char> {
    s.take(leading(s, other_than(c)) as int)
}

/// The part of `s` after the last `c`, or all of `s`.
pub open spec fn after_last(s: Seq<char>, c: char) -> Seq<char> {
    s.skip(s.len() - trailing(s, other_than(c)))
}

/// The parts before and after the first `c`, if there is one.
pub open spec fn cut_once(s: Seq<char>, c: char) -> Option<(Seq<char>, Seq<char>)> {
    if s.contains(c) {
        let n = leading(s, other_than(c)) as int;
        Some((s.take(n), s.skip(n + 1)))
    } else {
        None
    }
}

/// The parts before and after the first `c`, if there is one.
pub fn split_once(s: &str, c: char) -> (r: Option<(String, String)>)
    ensures
        match r {
            Some((a, b)) => cut_once(s@, c) == Some((a@, b@)),
            None => cut_once(s@, c) is None,
        },
{
    let v = chars_of(s);
    let n: usize = find_char(&v, c, 0);
    proof {
        lemma_leading(s@, other_than(c), n as int);
    }
    if n == v.len() {
        assert(!s@.contains(c));
        None
    } else {
        assert(s@[n as int] == c);
        let a = string_of(&v, 0, n);
        let b = string_of(&v, n + 1, v.len());
        assert(a@ =~= s@.take(n as int));
        assert(b@ =~= s@.skip(n + 1));
        Some((a, b))
    }
}

/// The part before the first `c`, or all of `s`.
pub fn cut_before_first(s: &str, c: char) -> (r: String)
    ensures
        r@ == before_first(s@, c),
{
    let v = chars_of(s);
    let n: usize = find_char(&v, c, 0);
    proof {
        lemma_leading(s@, other_than(c), n as int);
    }
    string_of(&v, 0, n)
}

/// The part after the last `c`, or all of `s`.
pub fn cut_after_last(s: &str, c: char) -> (r: String)
    ensures
        r@ == after_last(s@, c),
{
    let v = chars_of(s);
    let mut i: usize = v.len();
    while i > 0 && v[i - 1] != c
        invariant
            v@ == s@,
            i <= v@.len(),
            forall|j: int| i <= j < v@.len() ==> v@[j] != c,
        decreases i,
    {
        i = i - 1;
    }
    proof {
        lemma_trailing(s@, other_than(c), s@.len() - i);
        assert(s@.skip(i as int) =~= s@.subrange(i as int, s@.len() as int));
    }
    string_of(&v, i, v.len())
}

// ---------------------------------------------------------------------------
// White space
// ---------------------------------------------------------------------------

/// Whether a character is white space (the Unicode property `White_Space`).
pub open spec fn is_space(c: char) -> bool {
    let n = c as int;
    ||| 0x09 <= n <= 0x0D
    ||| n == 0x20
    ||| n == 0x85
    ||| n == 0xA0
    ||| n == 0x1680
    ||| 0x2000 <= n <= 0x200A
    ||| n == 0x2028
    ||| n == 0x2029
    ||| n == 0x202F
    ||| n == 0x205F
    ||| n == 0x3000
}

/// Whether a character is white space.
pub fn space(c: char) -> (r: bool)
    ensures
        r == is_space(c),
{
    let n: u32 = c as u32;
    (0x09 <= n && n <= 0x0D) || n == 0x20 || n == 0x85 || n == 0xA0 || n == 0x1680 || (0x2000 <= n
        && n <= 0x200A) || n == 0x2028 || n == 0x2029 || n == 0x202F || n == 0x205F || n == 0x3000
}

/// The white space characters.
pub open spec fn spaces() -> spec_fn(char) -> bool {
    |c: char| is_space(c)
}

/// `s` without white space at its ends.
pub open spec fn trimmed(s: Seq<char>) -> Seq<char> {
    let a = s.skip(leading(s, spaces()) as int);
    a.take(a.len() - trailing(a, spaces()))
}

/// `s` without white space at its ends.
pub fn trim(s: &str) -> (r: String)
    ensures
        r@ == trimmed(s@),
{
    let v = chars_of(s);
    let mut i: usize = 0;
    while i < v.len() && space(v[i])
        invariant
            i <= v@.len(),
            forall|k: int| 0 <= k < i ==> is_space(v@[k]),
        decreases v@.len() - i,
    {
        i = i + 1;
    }
    let mut j: usize = v.len();
    while j > i && space(v[j - 1])
        invariant
            i <= j <= v@.len(),
            forall|k: int| j <= k < v@.len() ==> is_space(v@[k]),
        decreases j,
    {
        j = j - 1;
    }
    proof {
        let p = spaces();
        lemma_leading(s@, p, i as int);
        let a = s@.skip(i as int);
        assert forall|k: int| a.len() - (s@.len() - j) <= k < a.len() implies p(
            #[trigger] a[k],
        ) by {
            assert(a[k] == v@[k + i]);
        }
        if j > i {
            assert(a[a.len() - (s@.len() - j) - 1] == v@[j - 1]);
        }
        lemma_trailing(a, p, s@.len() - j);
        assert(a.take(j - i) =~= s@.subrange(i as int, j as int));
    }
    string_of(&v, i, j)
}

// ---------------------------------------------------------------------------
// Splitting
// ---------------------------------------------------------------------------

/// The parts of `s` between the occurrences of `c`.
pub open spec fn split(s: Seq<char>, c: char) -> Seq<Seq<char>>
    decreases s.len(),
    via split_decreases
{
    let n = leading(s, other_than(c)) as int;
    if n >= s.len() {
        seq![s]
    } else {
        seq![s.take(n)] + split(s.skip(n + 1), c)
    }
}

#[via_fn]
proof fn split_decreases(s: Seq<char>, c: char) {
    lemma_leading_bound(s, other_than(c));
}

/// Splits `s` at every `c`.
pub fn split_at_char(s: &str, c: char) -> (r: Vec<String>)
    ensures
        texts(r@) == split(s@, c),
        r@.len() >= 1,
{
    let v = chars_of(s);
    let mut out: Vec<String> = Vec::new();
    let mut from: usize = 0;
    proof {
        assert(s@.skip(0) =~= s@);
        assert(texts(out@) =~= Seq::empty());
    }
    loop
        invariant
            v@ == s@,
            from <= v@.len(),
            split(s@, c) == texts(out@) + split(s@.skip(from as int), c),
        decreases v@.len() - from,
    {
        let n: usize = find_char(&v, c, from);
        let ghost rest = s@.skip(from as int);
        proof {
            assert forall|i: int| 0 <= i < n - from implies #[trigger] rest[i] != c by {
                assert(rest[i] == v@[from + i]);
            }
            lemma_leading(rest, other_than(c), n - from);
            assert(rest.take(n - from) =~= v@.subrange(from as int, n as int));
        }
        let ghost before = texts(out@);
        let part = string_of(&v, from, n);
        out.push(part);
        proof {
            assert(texts(out@) =~= before.push(part@));
        }
        if n >= v.len() {
            proof {
                assert(part@ =~= rest);
                assert(texts(out@) =~= before + seq![rest]);
            }
            return out;
        }
        proof {
            assert(rest.skip(n - from + 1) =~= s@.skip(n + 1));
            assert(texts(out@) + split(s@.skip(n + 1), c) =~= before + (seq![rest.take(n - from)]
                + split(s@.skip(n + 1), c)));
        }
        from = n + 1;
    }
}

/// `s` without a carriage return at its end.
pub open spec fn without_cr(s: Seq<char>) -> Seq<char> {
    if s.len() > 0 && s.last() == '\r' {
        s.drop_last()
    } else {
        s
    }
}

/// The lines of a text: the parts between line feeds, each without a carriage
/// return at its end; what follows the last line feed counts only if it is not
/// empty.
pub open spec fn lines_of(s: Seq<char>) -> Seq<Seq<char>> {
    let parts = split(s, '\n');
    let kept = if parts.last().len() == 0 {
        parts.drop_last()
    } else {
        parts
    };
    Seq::new(
        kept.len(),
        |i: int|
            if i == parts.len() - 1 {
                kept[i]
            } else {
                without_cr(kept[i])
            },
    )
}

// ---------------------------------------------------------------------------
// Searching for a text
// ---------------------------------------------------------------------------

/// Whether `p` stands in `s` at place `i`.
pub open spec fn occurs_at(s: Seq<char>, p: Seq<char>, i: int) -> bool {
    0 <= i && i + p.len() <= s.len() && s.subrange(i, i + p.len()) == p
}

/// The first place at or after `i` where `p` stands in `s`.
pub open spec fn find_from(s: Seq<char>, p: Seq<char>, i: int) -> Option<int>
    decreases s.len() + 1 - i,
{
    if i + p.len() > s.len() {
        None
    } else if occurs_at(s, p, i) {
        Some(i)
    } else {
        find_from(s, p, i + 1)
    }
}

/// A text is found at the first place where it stands, and is not found exactly
/// if it stands nowhere.
pub proof fn law_found_where_it_first_stands(s: Seq<char>, p: Seq<char>, from: int)
    requires
        0 <= from <= s.len(),
    ensures
        match find_from(s, p, from) {
            Some(k) => {
                &&& from <= k
                &&& k + p.len() <= s.len()
                &&& s.subrange(k, k + p.len()) == p
                &&& forall|j: int|
                    from <= j < k ==> #[trigger] s.subrange(j, j + p.len()) != p
            },
            None => forall|j: int|
                from <= j && j + p.len() <= s.len() ==> #[trigger] s.subrange(j, j + p.len()) != p,
        },
    decreases s.len() - from,
{
    if from + p.len() <= s.len() && !occurs_at(s, p, from) {
        if from == s.len() {
            assert(s.subrange(from, from + p.len()) =~= p);
        }
        law_found_where_it_first_stands(s, p, from + 1);
    }
}

/// A text that stands at a place, and at none from `from` up to it, is found there.
pub proof fn lemma_found_at(s: Seq<char>, p: Seq<char>, from: int, k: int)
    requires
        0 <= from <= k,
        k + p.len() <= s.len(),
        s.subrange(k, k + p.len()) == p,
        forall|j: int| from <= j < k ==> #[trigger] s.subrange(j, j + p.len()) != p,
    ensures
        find_from(s, p, from) == Some(k),
    decreases k - from,
{
    if from < k {
        assert(s.subrange(from, from + p.len()) != p);
        lemma_found_at(s, p, from + 1, k);
    }
}

/// Whether `p` stands in `s` somewhere.
pub open spec fn holds_text(s: Seq<char>, p: Seq<char>) -> bool {
    exists|i: int| occurs_at(s, p, i)
}

fn matches_at(v: &Vec<char>, p: &Vec<char>, i: usize) -> (r: bool)
    requires
        i + p@.len() <= v@.len(),
    ensures
        r == occurs_at(v@, p@, i as int),
{
    let n: usize = v.len();
    for k in 0..p.len()
        invariant
            n == v@.len(),
            i + p@.len() <= n,
            forall|j: int| 0 <= j < k ==> v@[i + j] == p@[j],
    {
        if v[i + k] != p[k] {
            assert(v@.subrange(i as int, i + p@.len())[k as int] != p@[k as int]);
            return false;
        }
    }
    assert(v@.subrange(i as int, i + p@.len()) =~= p@);
    true
}

/// The first place at or after `from` where `p` stands in `v`.
pub fn find_chars(v: &Vec<char>, p: &Vec<char>, from: usize) -> (r: Option<usize>)
    requires
        from <= v@.len(),
    ensures
        match r {
            Some(i) => find_from(v@, p@, from as int) == Some(i as int) && from <= i && occurs_at(
                v@,
                p@,
                i as int,
            ),
            None => find_from(v@, p@, from as int) is None,
        },
        r is None ==> forall|i: int| from <= i ==> !occurs_at(v@, p@, i),
{
    let mut i: usize = from;
    while p.len() <= v.len() - i
        invariant
            from <= i <= v@.len(),
            find_from(v@, p@, from as int) == find_from(v@, p@, i as int),
            forall|j: int| from <= j < i ==> !occurs_at(v@, p@, j),
        decreases v@.len() + 1 - i,
    {
        if matches_at(v, p, i) {
            return Some(i);
        }
        proof {
            if i == v@.len() {
                assert(v@.subrange(i as int, i as int) =~= p@);
            }
        }
        i = i + 1;
    }
    None
}

/// Whether `p` stands in `s` somewhere.
pub fn contains_text(s: &str, p: &str) -> (r: bool)
    ensures
        r == holds_text(s@, p@),
{
    let v = chars_of(s);
    let q = chars_of(p);
    let r = find_chars(&v, &q, 0);
    proof {
        if let Some(i) = r {
            assert(occurs_at(s@, p@, i as int));
        } else {
            assert forall|i: int| !occurs_at(s@, p@, i) by {
                if i >= 0 {
                }
            }
        }
    }
    r.is_some()
}

/// Whether `s` starts with `p`.
pub open spec fn begins_with(s: Seq<char>, p: Seq<char>) -> bool {
    p.len() <= s.len() && s.take(p.len() as int) == p
}

/// Whether `s` starts with `p`.
pub fn starts_with(s: &str, p: &str) -> (r: bool)
    ensures
        r == begins_with(s@, p@),
{
    let v = chars_of(s);
    let q = chars_of(p);
    if q.len() > v.len() {
        return false;
    }
    let r = matches_at(&v, &q, 0);
    assert(s@.take(p@.len() as int) =~= s@.subrange(0, p@.len() as int));
    r
}

// ---------------------------------------------------------------------------
// Letter case
// ---------------------------------------------------------------------------

/// The ASCII lower case of a character.
pub open spec fn lower_char(c: char) -> char {
    if 'A' <= c && c <= 'Z' {
        (c as u8 + 32) as char
    } else {
        c
    }
}

/// The ASCII upper case of a character.
pub open spec fn upper_char(c: char) -> char {
    if 'a' <= c && c <= 'z' {
        (c as u8 - 32) as char
    } else {
        c
    }
}

/// Whether every character is ASCII.
pub open spec fn all_ascii(s: Seq<char>) -> bool {
    forall|i: int| 0 <= i < s.len() ==> (#[trigger] s[i] as int) < 128
}

/// `s` with ASCII letters in lower case.
pub open spec fn lower_ascii(s: Seq<char>) -> Seq<char> {
    s.map_values(|c: char| lower_char(c))
}

/// `s` with ASCII letters in upper case.
pub open spec fn upper_ascii(s: Seq<char>) -> Seq<char> {
    s.map_values(|c: char| upper_char(c))
}

/// The ASCII lower case of a character.
pub fn to_lower_char(c: char) -> (r: char)
    ensures
        r == lower_char(c),
{
    if 'A' <= c && c <= 'Z' {
        (c as u8 + 32) as char
    } else {
        c
    }
}

/// `s` with ASCII letters in lower case.
pub fn lower_ascii_text(s: &str) -> (r: String)
    ensures
        r@ == lower_ascii(s@),
{
    let v = chars_of(s);
    let mut out = String::new();
    for i in 0..v.len()
        invariant
            v@ == s@,
            out@ == lower_ascii(s@).take(i as int),
    {
        out.push(to_lower_char(v[i]));
        assert(lower_ascii(s@).take(i + 1) =~= lower_ascii(s@).take(i as int).push(
            lower_char(s@[i as int]),
        ));
    }
    assert(lower_ascii(s@).take(s@.len() as int) =~= lower_ascii(s@));
    out
}

/// `s` with ASCII letters in upper case.
pub fn upper_ascii_text(s: &str) -> (r: String)
    ensures
        r@ == upper_ascii(s@),
{
    let v = chars_of(s);
    let mut out = String::new();
    for i in 0..v.len()
        invariant
            v@ == s@,
            out@ == upper_ascii(s@).take(i as int),
    {
        let c: char = v[i];
        let u: char = if 'a' <= c && c <= 'z' {
            (c as u8 - 32) as char
        } else {
            c
        };
        out.push(u);
        assert(upper_ascii(s@).take(i + 1) =~= upper_ascii(s@).take(i as int).push(
            upper_char(s@[i as int]),
        ));
    }
    assert(upper_ascii(s@).take(s@.len() as int) =~= upper_ascii(s@));
    out
}

/// Whether two texts are the same but for the case of ASCII letters.
pub open spec fn same_ignoring_case(a: Seq<char>, b: Seq<char>) -> bool {
    lower_ascii(a) == lower_ascii(b)
}

/// Whether two texts are the same but for the case of ASCII letters.
pub fn eq_ignore_case(a: &str, b: &str) -> (r: bool)
    ensures
        r == same_ignoring_case(a@, b@),
{
    let x = chars_of(a);
    let y = chars_of(b);
    if x.len() != y.len() {
        assert(lower_ascii(a@).len() != lower_ascii(b@).len());
        return false;
    }
    for i in 0..x.len()
        invariant
            x@ == a@,
            y@ == b@,
            x@.len() == y@.len(),
            forall|j: int| 0 <= j < i ==> lower_char(x@[j]) == lower_char(y@[j]),
    {
        if to_lower_char(x[i]) != to_lower_char(y[i]) {
            assert(lower_ascii(a@)[i as int] != lower_ascii(b@)[i as int]);
            return false;
        }
    }
    assert(lower_ascii(a@) =~= lower_ascii(b@));
    true
}

/// The lower case of a text under Unicode's rules.
pub uninterp spec fn unicode_lower(s: Seq<char>) -> Seq<char>;

/// The upper case of a text under Unicode's rules.
pub uninterp spec fn unicode_upper(s: Seq<char>) -> Seq<char>;

/// `str::to_lowercase`. Its result is a function of the text; on ASCII text it
/// is the ASCII lower case.
#[verifier::external_body]
pub(crate) fn to_lowercase(s: &str) -> (r: String)
    ensures
        r@ == unicode_lower(s@),
        all_ascii(s@) ==> r@ == lower_ascii(s@),
{
    s.to_lowercase()
}

/// `str::to_uppercase`. Its result is a function of the text; on ASCII text it
/// is the ASCII upper case.
#[verifier::external_body]
pub(crate) fn to_uppercase(s: &str) -> (r: String)
    ensures
        r@ == unicode_upper(s@),
        all_ascii(s@) ==> r@ == upper_ascii(s@),
{
    s.to_uppercase()
}

// ---------------------------------------------------------------------------
// Numbers
// ---------------------------------------------------------------------------

/// The character of a decimal digit.
pub open spec fn digit_char(d: nat) -> char {
    (48 + d) as u8 as char
}

/// A number in decimal notation.
pub open spec fn decimal(n: nat) -> Seq<char>
    decreases n,
{
    if n < 10 {
        seq![digit_char(n)]
    } else {
        decimal(n / 10).push(digit_char(n % 10))
    }
}

/// A number in decimal notation, with a sign if it is negative.
pub open spec fn decimal_int(n: int) -> Seq<char> {
    if n < 0 {
        seq!['-'] + decimal((-n) as nat)
    } else {
        decimal(n as nat)
    }
}

/// A number in decimal notation.
pub fn decimal_u64(n: u64) -> (r: String)
    ensures
        r@ == decimal(n as nat),
    decreases n,
{
    if n < 10 {
        let mut out = String::new();
        out.push((48 + n as u8) as char);
        assert(out@ =~= seq![digit_char(n as nat)]);
        out
    } else {
        let mut out = decimal_u64(n / 10);
        out.push((48 + (n % 10) as u8) as char);
        out
    }
}

/// A number in decimal notation, with a sign if it is negative.
pub fn decimal_i64(n: i64) -> (r: String)
    ensures
        r@ == decimal_int(n as int),
{
    if n < 0 {
        let m: u64 = if n == i64::MIN {
            0x8000_0000_0000_0000u64
        } else {
            (-n) as u64
        };
        let mut out = String::new();
        out.push('-');
        let digits = decimal_u64(m);
        out.append(digits.as_str());
        assert(out@ =~= seq!['-'] + decimal((-n) as nat));
        out
    } else {
        decimal_u64(n as u64)
    }
}

/// Whether a character is a decimal digit.
pub open spec fn is_digit(c: char) -> bool {
    '0' <= c && c <= '9'
}

/// Whether every character is a decimal digit.
pub open spec fn all_digits(s: Seq<char>) -> bool {
    forall|i: int| 0 <= i < s.len() ==> is_digit(#[trigger] s[i])
}

/// The number that a run of digits denotes.
pub open spec fn digits_value(s: Seq<char>) -> nat
    decreases s.len(),
{
    if s.len() == 0 {
        0
    } else {
        digits_value(s.drop_last()) * 10 + (s.last() as nat - 48) as nat
    }
}

/// The number up to `max` that a text denotes: digits, with an optional plus
/// sign before them.
pub open spec fn parsed(s: Seq<char>, max: nat) -> Option<nat> {
    let body = if s.len() > 0 && s[0] == '+' {
        s.skip(1)
    } else {
        s
    };
    if body.len() == 0 || !all_digits(body) || digits_value(body) > max {
        None
    } else {
        Some(digits_value(body))
    }
}

/// A longer run of digits denotes at least as much.
proof fn lemma_digits_value_mono(s: Seq<char>, n: int)
    requires
        0 <= n <= s.len(),
        all_digits(s),
    ensures
        digits_value(s.take(n)) <= digits_value(s),
    decreases s.len(),
{
    if n == s.len() {
        assert(s.take(n) =~= s);
    } else {
        let t = s.drop_last();
        assert forall|i: int| 0 <= i < t.len() implies is_digit(#[trigger] t[i]) by {
            assert(t[i] == s[i]);
        }
        lemma_digits_value_mono(t, n);
        assert(t.take(n) =~= s.take(n));
    }
}

/// The number up to `max` that a text denotes.
pub fn parse_up_to(s: &str, max: u64) -> (r: Option<u64>)
    ensures
        match r {
            Some(n) => parsed(s@, max as nat) == Some(n as nat),
            None => parsed(s@, max as nat) is None,
        },
{
    let v = chars_of(s);
    let start: usize = if v.len() > 0 && v[0] == '+' {
        1
    } else {
        0
    };
    let ghost body = if s@.len() > 0 && s@[0] == '+' {
        s@.skip(1)
    } else {
        s@
    };
    proof {
        assert(body =~= s@.skip(start as int));
        assert(body.take(0) =~= Seq::<char>::empty());
    }
    if start == v.len() {
        return None;
    }
    let mut n: u64 = 0;
    let mut i: usize = start;
    while i < v.len()
        invariant
            v@ == s@,
            start <= i <= v@.len(),
            body == s@.skip(start as int),
            parsed(s@, max as nat) == (if body.len() == 0 || !all_digits(body) || digits_value(body)
                > max {
                None
            } else {
                Some(digits_value(body))
            }),
            forall|j: int| start <= j < i ==> is_digit(v@[j]),
            n == digits_value(body.take(i - start)),
            n <= max,
        decreases v@.len() - i,
    {
        let c: char = v[i];
        if c < '0' || c > '9' {
            assert(!is_digit(body[i - start]));
            return None;
        }
        let d: u64 = (c as u8 - 48) as u64;
        proof {
            assert(body.take(i - start + 1).drop_last() =~= body.take(i - start));
            assert(body.take(i - start + 1).last() == c);
            assert(digits_value(body.take(i - start + 1)) == n * 10 + d);
        }
        if n > max / 10 || (n == max / 10 && d > max % 10) {
            proof {
                assert(n * 10 + d > max);
                if all_digits(body) {
                    lemma_digits_value_mono(body, i - start + 1);
                }
            }
            return None;
        }
        n = n * 10 + d;
        i = i + 1;
    }
    proof {
        assert(body.take(i - start) =~= body);
        assert forall|k: int| 0 <= k < body.len() implies is_digit(#[trigger] body[k]) by {
            assert(body[k] == v@[k + start]);
        }
    }
    Some(n)
}

/// What decimal notation looks like, and that it denotes its number.
pub proof fn lemma_decimal(n: nat)
    ensures
        decimal(n).len() >= 1,
        all_digits(decimal(n)),
        digits_value(decimal(n)) == n,
    decreases n,
{
    if n < 10 {
        let s = seq![digit_char(n)];
        assert(s.drop_last() =~= Seq::<char>::empty());
        assert(digits_value(s) == digits_value(s.drop_last()) * 10 + (s.last() as nat - 48) as nat);
    } else {
        lemma_decimal(n / 10);
        let s = decimal(n);
        assert(s.drop_last() =~= decimal(n / 10));
        assert forall|i: int| 0 <= i < s.len() implies is_digit(#[trigger] s[i]) by {
            if i < s.len() - 1 {
                assert(s[i] == decimal(n / 10)[i]);
            }
        }
    }
}

/// Parsing a number's decimal notation gives the number back.
pub proof fn law_parse_of_decimal(n: nat, max: nat)
    ensures
        parsed(decimal(n), max) == (if n <= max {
            Some(n)
        } else {
            None
        }),
{
    lemma_decimal(n);
    assert(is_digit(decimal(n)[0]));
}

// ---------------------------------------------------------------------------
// Order
// ---------------------------------------------------------------------------

/// Whether `a` comes before `b`, or is `b`, in the order of code points.
pub open spec fn text_le(a: Seq<char>, b: Seq<char>) -> bool
    decreases a.len(),
{
    if a.len() == 0 {
        true
    } else if b.len() == 0 {
        false
    } else if a[0] != b[0] {
        (a[0] as int) < (b[0] as int)
    } else {
        text_le(a.drop_first(), b.drop_first())
    }
}

/// The order of code points is total.
pub proof fn lemma_text_le_total(a: Seq<char>, b: Seq<char>)
    ensures
        text_le(a, b) || text_le(b, a),
    decreases a.len(),
{
    if a.len() > 0 && b.len() > 0 && a[0] == b[0] {
        lemma_text_le_total(a.drop_first(), b.drop_first());
    }
}

/// The order of code points is transitive.
pub proof fn lemma_text_le_trans(a: Seq<char>, b: Seq<char>, c: Seq<char>)
    requires
        text_le(a, b),
        text_le(b, c),
    ensures
        text_le(a, c),
    decreases a.len(),
{
    if a.len() > 0 && b.len() > 0 && c.len() > 0 && a[0] == b[0] && b[0] == c[0] {
        lemma_text_le_trans(a.drop_first(), b.drop_first(), c.drop_first());
    }
}

/// Whether `a` comes before `b`, or is `b`, in the order of code points.
pub fn le_text(a: &str, b: &str) -> (r: bool)
    ensures
        r == text_le(a@, b@),
{
    let x = chars_of(a);
    let y = chars_of(b);
    let mut i: usize = 0;
    proof {
        assert(a@.skip(0) =~= a@);
        assert(b@.skip(0) =~= b@);
    }
    while i < x.len() && i < y.len()
        invariant
            x@ == a@,
            y@ == b@,
            i <= x@.len(),
            i <= y@.len(),
            text_le(a@, b@) == text_le(a@.skip(i as int), b@.skip(i as int)),
        decreases x@.len() - i,
    {
        proof {
            assert(a@.skip(i as int)[0] == x@[i as int]);
            assert(b@.skip(i as int)[0] == y@[i as int]);
            assert(a@.skip(i as int).drop_first() =~= a@.skip(i + 1));
            assert(b@.skip(i as int).drop_first() =~= b@.skip(i + 1));
        }
        if x[i] != y[i] {
            return x[i] < y[i];
        }
        i = i + 1;
    }
    i == x.len()
}

/// Inserting an element anywhere adds it to the multiset.
pub proof fn lemma_insert_multiset<A>(s: Seq<A>, i: int, a: A)
    requires
        0 <= i <= s.len(),
    ensures
        s.insert(i, a).to_multiset() == s.to_multiset().insert(a),
{
    broadcast use vstd::seq_lib::group_to_multiset_ensures;

    let t = s.insert(i, a);
    assert(t.remove(i) =~= s);
    assert(t[i] == a);
    assert(t.contains(t[i]));
    assert(t.to_multiset().remove(a) == s.to_multiset());
    assert(t.to_multiset() =~= s.to_multiset().insert(a));
}

/// Whether texts stand in the order of code points.
pub open spec fn texts_sorted(s: Seq<Seq<char>>) -> bool {
    forall|i: int, j: int| #![trigger s[i], s[j]] 0 <= i <= j < s.len() ==> text_le(s[i], s[j])
}

fn insert_text(v: &mut Vec<String>, e: String)
    requires
        texts_sorted(texts(old(v)@)),
    ensures
        texts_sorted(texts(final(v)@)),
        texts(final(v)@).to_multiset() == texts(old(v)@).to_multiset().insert(e@),
{
    let ghost s = texts(v@);
    let mut p: usize = 0;
    while p < v.len() && le_text(v[p].as_str(), e.as_str())
        invariant
            p <= v@.len(),
            s == texts(v@),
            forall|k: int| 0 <= k < p ==> text_le(#[trigger] s[k], e@),
        decreases v@.len() - p,
    {
        assert(s[p as int] == v@[p as int]@);
        p = p + 1;
    }
    let ghost ev = e@;
    proof {
        if p < s.len() {
            assert(s[p as int] == v@[p as int]@);
            lemma_text_le_total(s[p as int], ev);
        }
    }
    v.insert(p, e);
    proof {
        assert(texts(v@) =~= s.insert(p as int, ev));
        let t = s.insert(p as int, ev);
        assert forall|i: int, j: int| #![trigger t[i], t[j]] 0 <= i <= j < t.len() implies text_le(
            t[i],
            t[j],
        ) by {
            let si = if i < p {
                i
            } else {
                i - 1
            };
            let sj = if j < p {
                j
            } else {
                j - 1
            };
            if i != p {
                assert(t[i] == s[si]);
            }
            if j != p {
                assert(t[j] == s[sj]);
            }
            if i == p && j == p {
                lemma_text_le_total(ev, ev);
            } else if i == p {
                assert(text_le(s[p as int], s[sj]));
                lemma_text_le_trans(ev, s[p as int], s[sj]);
            }
        }
        lemma_insert_multiset(s, p as int, ev);
    }
}

/// The same texts in the order of code points.
pub fn sort_texts(v: Vec<String>) -> (r: Vec<String>)
    ensures
        texts_sorted(texts(r@)),
        texts(r@).to_multiset() == texts(v@).to_multiset(),
{
    let ghost s = texts(v@);
    let mut r: Vec<String> = Vec::new();
    assert(texts(r@) =~= s.take(0));
    for i in 0..v.len()
        invariant
            s == texts(v@),
            texts_sorted(texts(r@)),
            texts(r@).to_multiset() == s.take(i as int).to_multiset(),
    {
        let e = v[i].clone();
        proof {
            assert(s.take(i + 1) =~= s.take(i as int).push(s[i as int]));
            vstd::seq_lib::to_multiset_build(s.take(i as int), s[i as int]);
        }
        insert_text(&mut r, e);
    }
    assert(s.take(s.len() as int) =~= s);
    r
}

/// A text without a carriage return at its end.
fn drop_cr(s: &str) -> (r: String)
    ensures
        r@ == without_cr(s@),
{
    let v = chars_of(s);
    let n: usize = v.len();
    if n > 0 && v[n - 1] == '\r' {
        let r = string_of(&v, 0, n - 1);
        assert(r@ =~= without_cr(s@));
        r
    } else {
        s.to_owned()
    }
}

/// The lines of a text.
pub fn lines(s: &str) -> (r: Vec<String>)
    ensures
        texts(r@) == lines_of(s@),
{
    let parts = split_at_char(s, '\n');
    let n: usize = parts.len();
    let ghost ps = split(s@, '\n');
    assert(ps.len() == n);
    assert(ps.last() == parts@[n - 1]@);
    let kept: usize = if parts[n - 1].as_str().is_empty() {
        n - 1
    } else {
        n
    };
    let ghost ls = lines_of(s@);
    assert(ls.len() == kept);
    let mut r: Vec<String> = Vec::new();
    assert(texts(r@) =~= ls.take(0));
    for i in 0..kept
        invariant
            n == parts@.len(),
            n == ps.len(),
            kept <= n,
            ps == texts(parts@),
            ls.len() == kept,
            forall|k: int|
                0 <= k < kept ==> #[trigger] ls[k] == (if k == n - 1 {
                    ps[k]
                } else {
                    without_cr(ps[k])
                }),
            texts(r@) == ls.take(i as int),
    {
        let line = if i == n - 1 {
            parts[i].clone()
        } else {
            drop_cr(parts[i].as_str())
        };
        assert(ps[i as int] == parts@[i as int]@);
        assert(line@ == ls[i as int]);
        assert(texts(r@.push(line)) =~= texts(r@).push(line@));
        assert(ls.take(i + 1) =~= ls.take(i as int).push(ls[i as int]));
        r.push(line);
    }
    assert(ls.take(kept as int) =~= ls);
    r
}

// ---------------------------------------------------------------------------
// Texts that denote nothing
// ---------------------------------------------------------------------------

/// Why a text does not denote a number.
#[derive(Debug, Clone, Copy, PartialEq, Eq, Structural)]
pub enum NumberError {
    /// There is no text.
    Empty,
    /// A character is no digit.
    Digit,
    /// The number is too large.
    TooLarge,
}

/// The first fault of a run of characters, after digits that denote `acc`.
pub open spec fn first_fault(s: Seq<char>, max: nat, acc: nat) -> NumberError
    decreases s.len(),
{
    if s.len() == 0 || !is_digit(s[0]) {
        NumberError::Digit
    } else {
        let next = acc * 10 + (s[0] as nat - '0' as nat) as nat;
        if next > max {
            NumberError::TooLarge
        } else {
            first_fault(s.skip(1), max, next)
        }
    }
}

/// Why a text does not denote a number up to `max`.
pub open spec fn number_fault(s: Seq<char>, max: nat) -> NumberError {
    if s.len() == 0 {
        NumberError::Empty
    } else if s[0] == '+' {
        first_fault(s.skip(1), max, 0)
    } else {
        first_fault(s, max, 0)
    }
}

/// What is said of a text that denotes no number.
pub open spec fn number_error_text(e: NumberError) -> Seq<char> {
    match e {
        NumberError::Empty => "cannot parse integer from empty string"@,
        NumberError::Digit => "invalid digit found in string"@,
        NumberError::TooLarge => "number too large to fit in target type"@,
    }
}

impl NumberError {
    /// What is said of a text that denotes no number.
    pub fn message(&self) -> (r: String)
        ensures
            r@ == number_error_text(*self),
    {
        match self {
            NumberError::Empty => "cannot parse integer from empty string".to_owned(),
            NumberError::Digit => "invalid digit found in string".to_owned(),
            NumberError::TooLarge => "number too large to fit in target type".to_owned(),
        }
    }
}

fn digit_of(c: char) -> (r: Option<u8>)
    ensures
        match r {
            Some(d) => is_digit(c) && d == c as nat - '0' as nat && d <= 9,
            None => !is_digit(c),
        },
{
    if '0' <= c && c <= '9' {
        Some((c as u32 - '0' as u32) as u8)
    } else {
        None
    }
}

fn fault_of(s: &str, max: u64) -> (r: NumberError)
    ensures
        r == number_fault(s@, max as nat),
{
    let v = chars_of(s);
    if v.len() == 0 {
        return NumberError::Empty;
    }
    let start: usize = if v[0] == '+' {
        1
    } else {
        0
    };
    let mut i: usize = start;
    let mut acc: u64 = 0;
    assert(v@.skip(0) =~= v@);
    while i < v.len()
        invariant
            v@ == s@,
            i <= v@.len(),
            number_fault(v@, max as nat) == first_fault(v@.skip(i as int), max as nat, acc as nat),
        decreases v@.len() - i,
    {
        let ghost rest = v@.skip(i as int);
        assert(rest[0] == v@[i as int]);
        match digit_of(v[i]) {
            None => {
                return NumberError::Digit;
            },
            Some(d) => {
                let next: u128 = acc as u128 * 10 + d as u128;
                if next > max as u128 {
                    return NumberError::TooLarge;
                }
                assert(rest.skip(1) =~= v@.skip(i + 1));
                acc = next as u64;
            },
        }
        i = i + 1;
    }
    NumberError::Digit
}

/// The number up to `max` that a text denotes, or why it denotes none.
pub fn read_number(s: &str, max: u64) -> (r: Result<u64, NumberError>)
    ensures
        match r {
            Ok(n) => parsed(s@, max as nat) == Some(n as nat),
            Err(e) => parsed(s@, max as nat) is None && e == number_fault(s@, max as nat),
        },
{
    match parse_up_to(s, max) {
        Some(n) => Ok(n),
        None => Err(fault_of(s, max)),
    }
}

/// The truth value that a text denotes.
pub open spec fn flag_of(s: Seq<char>) -> Option<bool> {
    if s == "true"@ {
        Some(true)
    } else if s == "false"@ {
        Some(false)
    } else {
        None
    }
}

/// The text that denotes a truth value.
pub open spec fn flag_text(b: bool) -> Seq<char> {
    if b {
        "true"@
    } else {
        "false"@
    }
}

/// What is said of a text that denotes no truth value.
pub open spec fn flag_fault() -> Seq<char> {
    "provided string was not `true` or `false`"@
}

/// The truth value that a text denotes.
pub fn read_flag(s: &str) -> (r: Option<bool>)
    ensures
        r == flag_of(s@),
{
    if text_eq(s, "true") {
        Some(true)
    } else if text_eq(s, "false") {
        Some(false)
    } else {
        None
    }
}

/// The text that denotes a truth value.
pub fn show_flag(b: bool) -> (r: String)
    ensures
        r@ == flag_text(b),
{
    if b {
        "true".to_owned()
    } else {
        "false".to_owned()
    }
}

/// What is shown of a truth value denotes it.
pub proof fn law_flag_of_text(b: bool)
    ensures
        flag_of(flag_text(b)) == Some(b),
{
    reveal_strlit("true");
    reveal_strlit("false");
    assert("true"@.len() != "false"@.len());
}

// ---------------------------------------------------------------------------
// Laws
// ---------------------------------------------------------------------------

/// Parts are joined one behind another, with the separator between two.
pub proof fn law_joined_with_separators(
    a: Seq<Seq<char>>,
    b: Seq<Seq<char>>,
    one: Seq<char>,
    sep: Seq<char>,
)
    ensures
        join(Seq::empty(), sep) == Seq::<char>::empty(),
        join(seq![one], sep) == one,
        a.len() > 0 && b.len() > 0 ==> join(a + b, sep) == join(a, sep) + sep + join(b, sep),
    decreases b.len(),
{
    if a.len() > 0 && b.len() > 0 {
        assert((a + b).drop_last() =~= a + b.drop_last());
        if b.len() == 1 {
            assert(a + b.drop_last() =~= a);
        } else {
            law_joined_with_separators(a, b.drop_last(), one, sep);
            assert(join(a + b, sep) =~= join(a, sep) + sep + join(b, sep));
        }
    }
}

/// The parts of a text hold no separator, and joined they are the text again.
pub proof fn law_split_and_join(s: Seq<char>, c: char)
    ensures
        join(split(s, c), seq![c]) == s,
        split(s, c).len() > 0,
        forall|i: int| 0 <= i < split(s, c).len() ==> !(#[trigger] split(s, c)[i]).contains(c),
    decreases s.len(),
{
    lemma_leading_bound(s, other_than(c));
    let n = leading(s, other_than(c)) as int;
    if n < s.len() {
        let first = s.take(n);
        let rest = s.skip(n + 1);
        law_split_and_join(rest, c);
        law_joined_with_separators(seq![first], split(rest, c), first, seq![c]);
        assert(first + seq![c] + rest =~= s);
        assert forall|i: int| 0 <= i < split(s, c).len() implies !(#[trigger] split(
            s,
            c,
        )[i]).contains(c) by {
            if i == 0 {
                assert forall|k: int| 0 <= k < first.len() implies first[k] != c by {
                    assert(other_than(c)(s[k]));
                }
            } else {
                assert(split(s, c)[i] == split(rest, c)[i - 1]);
            }
        }
    } else {
        assert forall|k: int| 0 <= k < s.len() implies s[k] != c by {
            assert(other_than(c)(s[k]));
        }
    }
}

/// A text up to its first separator, and what follows it.
proof fn lemma_first_part(before: Seq<char>, c: char, after: Seq<char>)
    requires
        !before.contains(c),
    ensures
        leading(before + seq![c] + after, other_than(c)) == before.len(),
        (before + seq![c] + after).take(before.len() as int) == before,
        (before + seq![c] + after).skip(before.len() as int + 1) == after,
        leading(before, other_than(c)) == before.len(),
{
    let s = before + seq![c] + after;
    assert forall|k: int| 0 <= k < before.len() implies other_than(c)(#[trigger] s[k]) by {
        assert(s[k] == before[k]);
        assert(before.contains(before[k]));
    }
    assert(s[before.len() as int] == c);
    lemma_leading(s, other_than(c), before.len() as int);
    assert(s.take(before.len() as int) =~= before);
    assert(s.skip(before.len() as int + 1) =~= after);
    assert forall|k: int| 0 <= k < before.len() implies other_than(c)(#[trigger] before[k]) by {
        assert(before.contains(before[k]));
    }
    lemma_leading(before, other_than(c), before.len() as int);
}

/// A text is cut at its first separator, or not at all.
pub proof fn law_cut_at_the_first(before: Seq<char>, c: char, after: Seq<char>)
    requires
        !before.contains(c),
    ensures
        cut_once(before + seq![c] + after, c) == Some((before, after)),
        cut_once(before, c) is None,
        before_first(before + seq![c] + after, c) == before,
        before_first(before, c) == before,
        split(before + seq![c] + after, c) == seq![before] + split(after, c),
        split(before, c) == seq![before],
{
    lemma_first_part(before, c, after);
    let s = before + seq![c] + after;
    assert(s[before.len() as int] == c);
    assert(s.contains(c));
    assert(before.take(before.len() as int) =~= before);
}

/// What follows the last separator of a text is all behind it, or the whole text.
pub proof fn law_after_the_last(before: Seq<char>, c: char, after: Seq<char>)
    requires
        !after.contains(c),
    ensures
        after_last(before + seq![c] + after, c) == after,
        after_last(after, c) == after,
{
    let s = before + seq![c] + after;
    assert forall|k: int| s.len() - after.len() <= k < s.len() implies other_than(c)(
        #[trigger] s[k],
    ) by {
        assert(s[k] == after[k - (s.len() - after.len())]);
        assert(after.contains(after[k - (s.len() - after.len())]));
    }
    assert(s[s.len() - after.len() - 1] == c);
    lemma_trailing(s, other_than(c), after.len() as int);
    assert(s.skip(s.len() - after.len()) =~= after);
    assert forall|k: int| 0 <= k < after.len() implies other_than(c)(#[trigger] after[k]) by {
        assert(after.contains(after[k]));
    }
    lemma_trailing(after, other_than(c), after.len() as int);
    assert(after.skip(0) =~= after);
}

/// White space before and after a text is dropped, and none inside it.
pub proof fn law_trimmed_of_white_space(before: Seq<char>, s: Seq<char>, after: Seq<char>)
    requires
        forall|i: int| 0 <= i < before.len() ==> is_space(#[trigger] before[i]),
        forall|i: int| 0 <= i < after.len() ==> is_space(#[trigger] after[i]),
        s.len() > 0 ==> !is_space(s[0]) && !is_space(s.last()),
        s.len() == 0 ==> after.len() == 0,
    ensures
        trimmed(before + s + after) == s,
{
    let t = before + s + after;
    assert forall|k: int| 0 <= k < before.len() implies spaces()(#[trigger] t[k]) by {
        assert(t[k] == before[k]);
    }
    if s.len() > 0 {
        assert(t[before.len() as int] == s[0]);
    }
    lemma_leading(t, spaces(), before.len() as int);
    let a = t.skip(before.len() as int);
    assert(a =~= s + after);
    assert forall|k: int| a.len() - after.len() <= k < a.len() implies spaces()(
        #[trigger] a[k],
    ) by {
        assert(a[k] == after[k - s.len()]);
    }
    if s.len() > 0 {
        assert(a[s.len() - 1] == s.last());
    }
    lemma_trailing(a, spaces(), after.len() as int);
    assert(a.take(s.len() as int) =~= s);
}

/// Spaces, tabs and the ends of lines are white space; printable ASCII is not.
pub proof fn law_white_space(c: char)
    ensures
        c == ' ' || c == '\t' || c == '\n' || c == '\r' ==> is_space(c),
        0x20 < (c as int) < 0x7F ==> !is_space(c),
{
}

/// A text has one line for every line feed that ends one, without that and without
/// a carriage return before it, and one for what follows the last, if anything does.
pub proof fn law_line_by_line(line: Seq<char>, rest: Seq<char>)
    requires
        !line.contains('\n'),
    ensures
        line.len() > 0 ==> lines_of(line) == seq![line],
        lines_of(Seq::empty()) == Seq::<Seq<char>>::empty(),
        line.len() > 0 && line.last() == '\r' ==> lines_of(line + seq!['\n'] + rest)
            == seq![line.drop_last()] + lines_of(rest),
        line.len() == 0 || line.last() != '\r' ==> lines_of(line + seq!['\n'] + rest) == seq![line]
            + lines_of(rest),
{
    let none = Seq::<char>::empty();
    law_cut_at_the_first(line, '\n', rest);
    law_cut_at_the_first(none, '\n', none);
    assert(lines_of(line) =~= if line.len() > 0 {
        seq![line]
    } else {
        Seq::empty()
    });
    assert(lines_of(none) =~= Seq::empty());
    law_split_and_join(rest, '\n');
    let tail = split(rest, '\n');
    let whole = line + seq!['\n'] + rest;
    let parts = split(whole, '\n');
    assert(parts =~= seq![line] + tail);
    assert(parts.last() == tail.last());
    assert(lines_of(whole) =~= seq![without_cr(line)] + lines_of(rest));
}

/// The ASCII letters have a lower and an upper case; no other character changes.
pub proof fn law_letter_case(c: char)
    ensures
        'A' <= c && c <= 'Z' ==> lower_char(c) as int == c as int + 32 && upper_char(c) == c,
        'a' <= c && c <= 'z' ==> upper_char(c) as int == c as int - 32 && lower_char(c) == c,
        !('A' <= c && c <= 'Z') ==> lower_char(c) == c,
        !('a' <= c && c <= 'z') ==> upper_char(c) == c,
        same_ignoring_case(seq![lower_char(c)], seq![upper_char(c)]),
{
    assert(lower_ascii(seq![lower_char(c)]) =~= lower_ascii(seq![upper_char(c)]));
}

/// Texts are in the order of the first characters in which they differ; the
/// beginning of a text comes before it.
pub proof fn law_order_of_texts(
    common: Seq<char>,
    a: char,
    b: char,
    after: Seq<char>,
    rest: Seq<char>,
)
    ensures
        (a as int) < (b as int) ==> text_le(common + seq![a] + after, common + seq![b] + rest)
            && !text_le(common + seq![b] + rest, common + seq![a] + after),
        text_le(common, common + rest),
        rest.len() > 0 ==> !text_le(common + rest, common),
    decreases common.len(),
{
    let s = common + seq![a] + after;
    let t = common + seq![b] + rest;
    if common.len() > 0 {
        let shorter = common.drop_first();
        law_order_of_texts(shorter, a, b, after, rest);
        assert(s.drop_first() =~= shorter + seq![a] + after);
        assert(t.drop_first() =~= shorter + seq![b] + rest);
        assert((common + rest).drop_first() =~= shorter + rest);
    }
}

/// A flag is read from the words `true` and `false` alone.
pub proof fn law_flags_are_words(s: Seq<char>)
    ensures
        flag_of(s) == Some(true) <==> s == "true"@,
        flag_of(s) == Some(false) <==> s == "false"@,
        flag_text(true) == "true"@,
        flag_text(false) == "false"@,
{
    reveal_strlit("true");
    reveal_strlit("false");
    assert("true"@.len() != "false"@.len());
}

/// What is wrong with a number: nothing stands there, a character is no digit, or
/// the digits before such a character are too large already.
pub proof fn law_faults_of_numbers(s: Seq<char>, max: nat)
    ensures
        number_fault(s, max) == NumberError::Empty <==> s.len() == 0,
        s.len() > 0 && s[0] != '+' && !('0' <= s[0] && s[0] <= '9') ==> number_fault(s, max)
            == NumberError::Digit,
        s == seq!['+'] ==> number_fault(s, max) == NumberError::Digit,
{
    lemma_fault_is_named(s, max, 0);
    lemma_fault_is_named(s.skip(1), max, 0);
    if s == seq!['+'] {
        assert(s.skip(1).len() == 0);
    }
}

/// Where something stands, what is wrong is a digit or the size.
proof fn lemma_fault_is_named(s: Seq<char>, max: nat, acc: nat)
    ensures
        first_fault(s, max, acc) != NumberError::Empty,
    decreases s.len(),
{
    if s.len() > 0 && is_digit(s[0]) {
        let next = acc * 10 + (s[0] as nat - '0' as nat) as nat;
        if next <= max {
            lemma_fault_is_named(s.skip(1), max, next);
        }
    }
}

/// What is wrong with a number or a flag is said in words.
pub proof fn law_faults_in_words(e: NumberError)
    ensures
        e == NumberError::Empty ==> number_error_text(e)
            == "cannot parse integer from empty string"@,
        e == NumberError::Digit ==> number_error_text(e) == "invalid digit found in string"@,
        e == NumberError::TooLarge ==> number_error_text(e)
            == "number too large to fit in target type"@,
        flag_fault() == "provided string was not `true` or `false`"@,
{
}

/// A number that is read is written in digits, after at most one plus sign.
pub proof fn law_numbers_are_digits(s: Seq<char>, max: nat, n: nat)
    ensures
        parsed(s, max) is Some ==> parsed(s, max)->0 <= max && s.len() > 0 && s != seq!['+']
            && forall|i: int| 1 <= i < s.len() ==> '0' <= #[trigger] s[i] && s[i] <= '9',
        n <= max ==> parsed(seq!['+'] + decimal(n), max) == Some(n),
        decimal_int(n as int) == decimal(n),
        n > 0 ==> decimal_int(-(n as int)) == seq!['-'] + decimal(n),
{
    lemma_decimal(n);
    let t = seq!['+'] + decimal(n);
    assert(t.skip(1) =~= decimal(n));
    if parsed(s, max) is Some {
        let body = if s.len() > 0 && s[0] == '+' {
            s.skip(1)
        } else {
            s
        };
        assert forall|i: int| 1 <= i < s.len() implies '0' <= #[trigger] s[i] && s[i] <= '9' by {
            if s[0] == '+' {
                assert(s[i] == body[i - 1]);
                assert(is_digit(body[i - 1]));
            } else {
                assert(is_digit(body[i]));
            }
        }
    }
}

} // verus!
