//! Character-level text rules: whitespace trimming, splitting, unsigned
//! literals and the lexicographic order of strings.
use vstd::prelude::*;

verus! {

/// The Unicode `White_Space` property, which `char::is_whitespace` tests.
pub open spec fn is_white_space(c: char) -> bool {
    let u = c as u32;
    ||| 0x9 <= u <= 0xD
    ||| u == 0x20
    ||| u == 0x85
    ||| u == 0xA0
    ||| u == 0x1680
    ||| 0x2000 <= u <= 0x200A
    ||| u == 0x2028
    ||| u == 0x2029
    ||| u == 0x202F
    ||| u == 0x205F
    ||| u == 0x3000
}

/// Drops leading whitespace.
pub open spec fn trim_start_spec(s: Seq<char>) -> Seq<char>
    decreases s.len(),
{
    if s.len() > 0 && is_white_space(s[0]) {
        trim_start_spec(s.drop_first())
    } else {
        s
    }
}

/// Drops trailing whitespace.
pub open spec fn trim_end_spec(s: Seq<char>) -> Seq<char>
    decreases s.len(),
{
    if s.len() > 0 && is_white_space(s.last()) {
        trim_end_spec(s.drop_last())
    } else {
        s
    }
}

/// What `str::trim` gives back: the text without leading and trailing whitespace.
pub open spec fn trim_spec(s: Seq<char>) -> Seq<char> {
    trim_end_spec(trim_start_spec(s))
}

pub fn is_white_space_char(c: char) -> (r: bool)
    ensures
        r == is_white_space(c),
{
    let u = c as u32;
    (0x9 <= u && u <= 0xD) || u == 0x20 || u == 0x85 || u == 0xA0 || u == 0x1680 || (0x2000 <= u
        && u <= 0x200A) || u == 0x2028 || u == 0x2029 || u == 0x202F || u == 0x205F || u == 0x3000
}

proof fn lemma_trim_start_at_pub(s: Seq<char>, a: int)
    requires
        0 <= a <= s.len(),
        forall|i: int| 0 <= i < a ==> is_white_space(#[trigger] s[i]),
        a == s.len() || !is_white_space(s[a]),
    ensures
        trim_start_spec(s) == s.subrange(a, s.len() as int),
{
    lemma_trim_start_at(s, a);
}

pub(crate) proof fn lemma_trim_start_at(s: Seq<char>, a: int)
    requires
        0 <= a <= s.len(),
        forall|i: int| 0 <= i < a ==> is_white_space(#[trigger] s[i]),
        a == s.len() || !is_white_space(s[a]),
    ensures
        trim_start_spec(s) == s.subrange(a, s.len() as int),
    decreases a,
{
    if a == 0 {
        assert(s.subrange(0, s.len() as int) =~= s);
    } else {
        let t = s.drop_first();
        assert forall|i: int| 0 <= i < a - 1 implies is_white_space(#[trigger] t[i]) by {
            assert(t[i] == s[i + 1]);
        }
        if a - 1 < t.len() {
            assert(t[a - 1] == s[a]);
        }
        lemma_trim_start_at(t, a - 1);
        assert(t.subrange(a - 1, t.len() as int) =~= s.subrange(a, s.len() as int));
    }
}

proof fn lemma_trim_end_at_pub(s: Seq<char>, b: int)
    requires
        0 <= b <= s.len(),
        forall|i: int| b <= i < s.len() ==> is_white_space(#[trigger] s[i]),
        b == 0 || !is_white_space(s[b - 1]),
    ensures
        trim_end_spec(s) == s.subrange(0, b),
{
    lemma_trim_end_at(s, b);
}

pub(crate) proof fn lemma_trim_end_at(s: Seq<char>, b: int)
    requires
        0 <= b <= s.len(),
        forall|i: int| b <= i < s.len() ==> is_white_space(#[trigger] s[i]),
        b == 0 || !is_white_space(s[b - 1]),
    ensures
        trim_end_spec(s) == s.subrange(0, b),
    decreases s.len() - b,
{
    if b == s.len() {
        assert(s.subrange(0, b) =~= s);
    } else {
        let t = s.drop_last();
        assert forall|i: int| b <= i < t.len() implies is_white_space(#[trigger] t[i]) by {
            assert(t[i] == s[i]);
        }
        if b > 0 {
            assert(t[b - 1] == s[b - 1]);
        }
        lemma_trim_end_at(t, b);
        assert(t.subrange(0, b) =~= s.subrange(0, b));
    }
}

pub open spec fn all_white_space(s: Seq<char>) -> bool {
    forall|k: int| 0 <= k < s.len() ==> is_white_space(#[trigger] s[k])
}

proof fn lemma_first_non_ws(s: Seq<char>) -> (i: int)
    ensures
        0 <= i <= s.len(),
        forall|k: int| 0 <= k < i ==> is_white_space(#[trigger] s[k]),
        i < s.len() ==> !is_white_space(s[i]),
    decreases s.len(),
{
    if s.len() > 0 && is_white_space(s[0]) {
        let t = s.drop_first();
        let i = lemma_first_non_ws(t);
        assert forall|k: int| 0 <= k < i + 1 implies is_white_space(#[trigger] s[k]) by {
            if k > 0 {
                assert(s[k] == t[k - 1]);
            }
        }
        if i + 1 < s.len() {
            assert(s[i + 1] == t[i]);
        }
        i + 1
    } else {
        0
    }
}

proof fn lemma_last_non_ws(s: Seq<char>) -> (j: int)
    ensures
        0 <= j <= s.len(),
        forall|k: int| j <= k < s.len() ==> is_white_space(#[trigger] s[k]),
        j > 0 ==> !is_white_space(s[j - 1]),
    decreases s.len(),
{
    if s.len() > 0 && is_white_space(s.last()) {
        let t = s.drop_last();
        let j = lemma_last_non_ws(t);
        assert forall|k: int| j <= k < s.len() implies is_white_space(#[trigger] s[k]) by {
            if k < t.len() {
                assert(s[k] == t[k]);
            }
        }
        if j > 0 {
            assert(s[j - 1] == t[j - 1]);
        }
        j
    } else {
        s.len() as int
    }
}

/// Where the trimmed text lies in a text: `s[i..j]`, with only whitespace
/// before `i` and from `j` on.
pub proof fn lemma_trim_bounds(s: Seq<char>) -> (r: (int, int))
    ensures
        0 <= r.0 <= r.1 <= s.len(),
        trim_spec(s) == s.subrange(r.0, r.1),
        forall|k: int| 0 <= k < r.0 ==> is_white_space(#[trigger] s[k]),
        forall|k: int| r.1 <= k < s.len() ==> is_white_space(#[trigger] s[k]),
        r.0 == r.1 ==> all_white_space(s),
        r.0 < r.1 ==> !is_white_space(s[r.0]) && !is_white_space(s[r.1 - 1]),
        r.0 < r.1 ==> trim_start_spec(s) == s.subrange(r.0, s.len() as int),
        r.0 < r.1 ==> trim_end_spec(s) == s.subrange(0, r.1),
{
    let i = lemma_first_non_ws(s);
    lemma_trim_start_at(s, i);
    if i == s.len() {
        assert(s.subrange(i, i) =~= Seq::<char>::empty());
        assert(trim_end_spec(Seq::<char>::empty()) == Seq::<char>::empty());
        (i, i)
    } else {
        let j = lemma_last_non_ws(s);
        if j <= i {
            assert(is_white_space(s[i]));
        }
        let u = s.subrange(i, s.len() as int);
        assert forall|k: int| j - i <= k < u.len() implies is_white_space(#[trigger] u[k]) by {
            assert(u[k] == s[k + i]);
        }
        assert(u[j - i - 1] == s[j - 1]);
        lemma_trim_end_at(u, j - i);
        assert(u.subrange(0, j - i) =~= s.subrange(i, j));
        lemma_trim_end_at(s, j);
        (i, j)
    }
}

/// Whitespace around a text does not change its trimmed form.
pub proof fn lemma_trim_ignores_surrounding(w1: Seq<char>, s: Seq<char>, w2: Seq<char>)
    requires
        all_white_space(w1),
        all_white_space(w2),
    ensures
        trim_spec(w1 + s + w2) == trim_spec(s),
{
    let t = w1 + s + w2;
    let o = w1.len() as int;
    let (i, j) = lemma_trim_bounds(s);
    if i < j {
        assert forall|k: int| 0 <= k < o + i implies is_white_space(#[trigger] t[k]) by {
            if k < o {
                assert(t[k] == w1[k]);
            } else {
                assert(t[k] == s[k - o]);
            }
        }
        assert(t[o + i] == s[i]);
        lemma_trim_start_at(t, o + i);
        let u = t.subrange(o + i, t.len() as int);
        assert forall|k: int| j - i <= k < u.len() implies is_white_space(#[trigger] u[k]) by {
            assert(u[k] == t[k + o + i]);
            if k + i < s.len() {
                assert(t[k + o + i] == s[k + i]);
            } else {
                assert(t[k + o + i] == w2[k + i - s.len()]);
            }
        }
        assert(u[j - i - 1] == s[j - 1]);
        lemma_trim_end_at(u, j - i);
        assert(u.subrange(0, j - i) =~= s.subrange(i, j));
    } else {
        assert forall|k: int| 0 <= k < t.len() implies is_white_space(#[trigger] t[k]) by {
            if k < o {
                assert(t[k] == w1[k]);
            } else if k < o + s.len() {
                assert(t[k] == s[k - o]);
            } else {
                assert(t[k] == w2[k - o - s.len()]);
            }
        }
        lemma_trim_start_at(t, t.len() as int);
        assert(t.subrange(t.len() as int, t.len() as int) =~= Seq::<char>::empty());
        assert(s.subrange(i, j) =~= Seq::<char>::empty());
    }
}

proof fn lemma_upper_keeps_white_space(c: char)
    ensures
        is_white_space(ascii_upper_char(c)) == is_white_space(c),
        ascii_lower_char(ascii_upper_char(c)) == ascii_lower_char(c),
        (ascii_upper_char(c) as u32) < 128 <==> (c as u32) < 128,
        ascii_upper_char(ascii_upper_char(c)) == ascii_upper_char(c),
{
    if 'a' <= c && c <= 'z' {
        let u = ((c as u32) - 32) as char;
        assert(u as u32 == (c as u32) - 32);
        assert('A' <= u && u <= 'Z');
        assert(((u as u32) + 32) as char == c);
    }
}

/// Trimming commutes with `to_ascii_uppercase`.
pub proof fn lemma_trim_ascii_upper(s: Seq<char>)
    ensures
        trim_spec(ascii_upper(s)) == ascii_upper(trim_spec(s)),
{
    let u = ascii_upper(s);
    assert forall|k: int| 0 <= k < s.len() implies is_white_space(#[trigger] u[k]) == is_white_space(
        s[k],
    ) by {
        lemma_upper_keeps_white_space(s[k]);
    }
    let (i, j) = lemma_trim_bounds(s);
    if i < j {
        assert forall|k: int| 0 <= k < i implies is_white_space(#[trigger] u[k]) by {
            assert(is_white_space(s[k]));
        }
        lemma_trim_start_at(u, i);
        let v = u.subrange(i, u.len() as int);
        assert forall|k: int| j - i <= k < v.len() implies is_white_space(#[trigger] v[k]) by {
            assert(v[k] == u[k + i]);
            assert(is_white_space(s[k + i]));
        }
        assert(v[j - i - 1] == u[j - 1]);
        lemma_trim_end_at(v, j - i);
        assert(v.subrange(0, j - i) =~= ascii_upper(s.subrange(i, j)));
    } else {
        assert forall|k: int| 0 <= k < u.len() implies is_white_space(#[trigger] u[k]) by {
            assert(is_white_space(s[k]));
        }
        lemma_trim_start_at(u, u.len() as int);
        assert(u.subrange(u.len() as int, u.len() as int) =~= Seq::<char>::empty());
        assert(ascii_upper(s.subrange(i, j)) =~= Seq::<char>::empty());
    }
}

/// Lowercasing after `to_ascii_uppercase` gives what lowercasing alone gives.
pub proof fn lemma_lowercase_ignores_ascii_case(s: Seq<char>)
    ensures
        is_ascii_text(ascii_upper(s)) == is_ascii_text(s),
        lowercase_of(ascii_upper(s)) == lowercase_of(s),
{
    let u = ascii_upper(s);
    assert forall|k: int| 0 <= k < s.len() implies #[trigger] ascii_lower_char(u[k])
        == ascii_lower_char(s[k]) && ((u[k] as u32) < 128 <==> (s[k] as u32) < 128)
        && ascii_upper_char(u[k]) == u[k] by {
        lemma_upper_keeps_white_space(s[k]);
    }
    if is_ascii_text(s) {
        assert forall|k: int| 0 <= k < u.len() implies (#[trigger] u[k] as u32) < 128 by {
            assert(ascii_lower_char(u[k]) == ascii_lower_char(s[k]));
        }
        assert(u.map_values(|c: char| ascii_lower_char(c)) =~= s.map_values(
            |c: char| ascii_lower_char(c),
        ));
    } else {
        let k = choose|k: int| 0 <= k < s.len() && !((s[k] as u32) < 128);
        assert(ascii_lower_char(u[k]) == ascii_lower_char(s[k]));
        assert(!((u[k] as u32) < 128));
        assert(!is_ascii_text(u));
        assert(ascii_upper(u) =~= u);
    }
}

/// On ASCII text, lowercasing a joined text lowercases each part.
pub proof fn lemma_lowercase_concat(x: Seq<char>, y: Seq<char>)
    requires
        is_ascii_text(x),
        is_ascii_text(y),
    ensures
        is_ascii_text(x + y),
        lowercase_of(x + y) == lowercase_of(x) + lowercase_of(y),
{
    let z = x + y;
    assert forall|k: int| 0 <= k < z.len() implies (#[trigger] z[k] as u32) < 128 by {
        if k < x.len() {
            assert(z[k] == x[k]);
        } else {
            assert(z[k] == y[k - x.len()]);
        }
    }
    assert(z.map_values(|c: char| ascii_lower_char(c)) =~= x.map_values(
        |c: char| ascii_lower_char(c),
    ) + y.map_values(|c: char| ascii_lower_char(c)));
}

/// Lowercasing keeps ASCII whitespace and separators.
pub proof fn lemma_lowercase_keeps(w: Seq<char>)
    requires
        is_ascii_text(w),
        forall|k: int| 0 <= k < w.len() ==> !('A' <= #[trigger] w[k] && w[k] <= 'Z'),
    ensures
        lowercase_of(w) == w,
{
    assert(w.map_values(|c: char| ascii_lower_char(c)) =~= w);
}

/// A part of an ASCII text is ASCII.
pub proof fn lemma_ascii_subrange(s: Seq<char>, i: int, j: int)
    requires
        is_ascii_text(s),
        0 <= i <= j <= s.len(),
    ensures
        is_ascii_text(s.subrange(i, j)),
{
    let t = s.subrange(i, j);
    assert forall|k: int| 0 <= k < t.len() implies (#[trigger] t[k] as u32) < 128 by {
        assert(t[k] == s[k + i]);
    }
}

/// The characters of a string, one by one.
pub fn chars_of(s: &str) -> (v: Vec<char>)
    ensures
        v@ == s@,
{
    let n = s.unicode_len();
    let mut v: Vec<char> = Vec::new();
    let mut i: usize = 0;
    while i < n
        invariant
            n == s@.len(),
            i <= n,
            v@ == s@.subrange(0, i as int),
        decreases n - i,
    {
        v.push(s.get_char(i));
        i = i + 1;
        assert(v@ =~= s@.subrange(0, i as int));
    }
    assert(s@.subrange(0, n as int) =~= s@);
    v
}

/// `str::trim`: the text without leading and trailing whitespace.
pub fn trim(s: &str) -> (r: &str)
    ensures
        r@ == trim_spec(s@),
{
    let cs = chars_of(s);
    let n = cs.len();
    let mut a: usize = 0;
    while a < n && is_white_space_char(cs[a])
        invariant
            n == s@.len(),
            cs@ == s@,
            a <= n,
            forall|i: int| 0 <= i < a ==> is_white_space(#[trigger] s@[i]),
        decreases n - a,
    {
        a = a + 1;
    }
    proof {
        lemma_trim_start_at(s@, a as int);
    }
    let ghost t = s@.subrange(a as int, n as int);
    let mut b: usize = n;
    while b > a && is_white_space_char(cs[b - 1])
        invariant
            n == s@.len(),
            cs@ == s@,
            a <= b <= n,
            t == s@.subrange(a as int, n as int),
            forall|i: int| b <= i < n ==> is_white_space(#[trigger] s@[i]),
        decreases b - a,
    {
        b = b - 1;
    }
    proof {
        assert forall|i: int| (b - a) <= i < t.len() implies is_white_space(#[trigger] t[i]) by {
            assert(t[i] == s@[i + a]);
        }
        if b > a {
            assert(t[b - a - 1] == s@[b - 1]);
        }
        lemma_trim_end_at(t, (b - a) as int);
        assert(t.subrange(0, (b - a) as int) =~= s@.subrange(a as int, b as int));
    }
    s.substring_char(a, b)
}


/// What `str::split` gives back for a one-character separator: the pieces
/// between separators, empty pieces included.
pub open spec fn split_spec(s: Seq<char>, sep: char) -> Seq<Seq<char>>
    decreases s.len(),
{
    if s.len() == 0 {
        seq![Seq::<char>::empty()]
    } else {
        let rest = split_spec(s.drop_last(), sep);
        if s.last() == sep {
            rest.push(Seq::<char>::empty())
        } else {
            rest.update(rest.len() - 1, rest.last().push(s.last()))
        }
    }
}

pub proof fn lemma_split_nonempty(s: Seq<char>, sep: char)
    ensures
        split_spec(s, sep).len() >= 1,
    decreases s.len(),
{
    if s.len() > 0 {
        lemma_split_nonempty(s.drop_last(), sep);
    }
}

/// Splitting two texts joined by the separator gives the pieces of the first
/// followed by the pieces of the second.
pub proof fn lemma_split_concat(s: Seq<char>, t: Seq<char>, sep: char)
    ensures
        split_spec(s + seq![sep] + t, sep) == split_spec(s, sep) + split_spec(t, sep),
    decreases t.len(),
{
    let x = s + seq![sep] + t;
    lemma_split_nonempty(s, sep);
    if t.len() == 0 {
        assert(x.drop_last() =~= s);
        assert(split_spec(s, sep) + split_spec(t, sep) =~= split_spec(s, sep).push(
            Seq::<char>::empty(),
        ));
    } else {
        let t1 = t.drop_last();
        assert(x.drop_last() =~= s + seq![sep] + t1);
        lemma_split_concat(s, t1, sep);
        lemma_split_nonempty(t1, sep);
        let ss = split_spec(s, sep);
        let st1 = split_spec(t1, sep);
        if t.last() == sep {
            assert(split_spec(s, sep) + split_spec(t, sep) =~= (ss + st1).push(
                Seq::<char>::empty(),
            ));
        } else {
            let both = ss + st1;
            assert(both.last() == st1.last());
            assert(ss + split_spec(t, sep) =~= both.update(
                both.len() - 1,
                both.last().push(t.last()),
            ));
        }
    }
}

pub open spec fn free_of(w: Seq<char>, sep: char) -> bool {
    forall|k: int| 0 <= k < w.len() ==> #[trigger] w[k] != sep
}

/// Text with no separator appended to a text extends its last piece.
pub proof fn lemma_split_append_free(p: Seq<char>, w: Seq<char>, sep: char)
    requires
        free_of(w, sep),
    ensures
        split_spec(p + w, sep) == split_spec(p, sep).update(
            split_spec(p, sep).len() - 1,
            split_spec(p, sep).last() + w,
        ),
    decreases w.len(),
{
    lemma_split_nonempty(p, sep);
    let sp = split_spec(p, sep);
    if w.len() == 0 {
        assert(p + w =~= p);
        assert(sp.last() + w =~= sp.last());
        assert(sp.update(sp.len() - 1, sp.last() + w) =~= sp);
    } else {
        let w1 = w.drop_last();
        assert(free_of(w1, sep)) by {
            assert forall|k: int| 0 <= k < w1.len() implies #[trigger] w1[k] != sep by {
                assert(w1[k] == w[k]);
            }
        }
        lemma_split_append_free(p, w1, sep);
        assert((p + w).drop_last() =~= p + w1);
        assert((p + w).last() == w.last());
        assert(w[w.len() - 1] != sep);
        assert((sp.last() + w1).push(w.last()) =~= sp.last() + w);
        assert(split_spec(p + w, sep) =~= sp.update(sp.len() - 1, sp.last() + w));
    }
}

/// Text with no separator put in front of a text extends its first piece.
pub proof fn lemma_split_prepend_free(w: Seq<char>, p: Seq<char>, sep: char)
    requires
        free_of(w, sep),
    ensures
        split_spec(w + p, sep) == split_spec(p, sep).update(0, w + split_spec(p, sep)[0]),
    decreases p.len(),
{
    lemma_split_nonempty(p, sep);
    if p.len() == 0 {
        lemma_split_append_free(Seq::<char>::empty(), w, sep);
        assert(Seq::<char>::empty() + w =~= w + p);
        assert(w + Seq::<char>::empty() =~= Seq::<char>::empty() + w);
    } else {
        let p1 = p.drop_last();
        lemma_split_prepend_free(w, p1, sep);
        lemma_split_nonempty(p1, sep);
        assert((w + p).drop_last() =~= w + p1);
        assert((w + p).last() == p.last());
        let s1 = split_spec(p1, sep);
        let q = s1.update(0, w + s1[0]);
        if p.last() == sep {
            assert(split_spec(p, sep).update(0, w + split_spec(p, sep)[0]) =~= q.push(
                Seq::<char>::empty(),
            ));
        } else {
            if s1.len() == 1 {
                assert((w + s1[0]).push(p.last()) =~= w + s1[0].push(p.last()));
            }
            assert(split_spec(p, sep).update(0, w + split_spec(p, sep)[0]) =~= q.update(
                q.len() - 1,
                q.last().push(p.last()),
            ));
        }
    }
}

pub open spec fn views_of(parts: Seq<&str>) -> Seq<Seq<char>> {
    parts.map_values(|p: &str| p@)
}

/// `str::split` on one separator character.
pub fn split_text<'a>(s: &'a str, sep: char) -> (parts: Vec<&'a str>)
    ensures
        views_of(parts@) == split_spec(s@, sep),
        parts@.len() >= 1,
{
    let cs = chars_of(s);
    let n = cs.len();
    let mut parts: Vec<&'a str> = Vec::new();
    let mut start: usize = 0;
    let mut i: usize = 0;
    assert(s@.subrange(0, 0) =~= Seq::<char>::empty());
    assert(views_of(parts@).push(s@.subrange(0, 0)) =~= seq![Seq::<char>::empty()]);
    while i < n
        invariant
            n == s@.len(),
            cs@ == s@,
            start <= i <= n,
            split_spec(s@.subrange(0, i as int), sep) == views_of(parts@).push(
                s@.subrange(start as int, i as int),
            ),
        decreases n - i,
    {
        let ghost pre = s@.subrange(0, i as int);
        let ghost post = s@.subrange(0, i + 1);
        assert(post.drop_last() =~= pre);
        assert(post.last() == s@[i as int]);
        if cs[i] == sep {
            let ghost old_parts = parts@;
            let piece = s.substring_char(start, i);
            parts.push(piece);
            assert(parts@ == old_parts.push(piece));
            assert(views_of(parts@) =~= views_of(old_parts).push(piece@));
            start = i + 1;
            assert(s@.subrange(start as int, i + 1) =~= Seq::<char>::empty());
            assert(views_of(parts@).push(s@.subrange(start as int, i + 1)) =~= split_spec(
                pre,
                sep,
            ).push(Seq::<char>::empty()));
        } else {
            assert(s@.subrange(start as int, i + 1) =~= s@.subrange(start as int, i as int).push(
                s@[i as int],
            ));
            assert(views_of(parts@).push(s@.subrange(start as int, i + 1)) =~= split_spec(
                pre,
                sep,
            ).update(split_spec(pre, sep).len() - 1, split_spec(pre, sep).last().push(
                s@[i as int],
            )));
        }
        i = i + 1;
    }
    let last = s.substring_char(start, n);
    parts.push(last);
    assert(s@.subrange(0, n as int) =~= s@);
    assert(views_of(parts@) =~= split_spec(s@, sep));
    parts
}


pub open spec fn is_ascii_digit(c: char) -> bool {
    '0' <= c && c <= '9'
}

pub open spec fn digit_value(c: char) -> nat {
    (c as u32 - '0' as u32) as nat
}

/// The number that a run of decimal digits writes.
pub open spec fn digits_value(s: Seq<char>) -> nat
    decreases s.len(),
{
    if s.len() == 0 {
        0
    } else {
        digits_value(s.drop_last()) * 10 + digit_value(s.last())
    }
}

pub open spec fn all_digits(s: Seq<char>) -> bool {
    forall|i: int| 0 <= i < s.len() ==> is_ascii_digit(#[trigger] s[i])
}

/// The digits of an unsigned literal: one leading `+` is allowed.
pub open spec fn unsigned_body(s: Seq<char>) -> Seq<char> {
    if s.len() > 0 && s[0] == '+' {
        s.drop_first()
    } else {
        s
    }
}

/// What `str::parse` gives back for an unsigned integer type whose largest
/// value is `max`: an optional `+`, then at least one decimal digit, and
/// nothing else; a value above `max` is refused.
pub open spec fn parse_unsigned_spec(s: Seq<char>, max: nat) -> Option<nat> {
    let d = unsigned_body(s);
    if d.len() > 0 && all_digits(d) && digits_value(d) <= max {
        Some(digits_value(d))
    } else {
        None
    }
}

proof fn lemma_digits_value_grows(d: Seq<char>, k: int)
    requires
        0 <= k <= d.len(),
        all_digits(d),
    ensures
        digits_value(d.subrange(0, k)) <= digits_value(d),
    decreases d.len() - k,
{
    if k < d.len() {
        lemma_digits_value_grows(d, k + 1);
        let p = d.subrange(0, k + 1);
        assert(p.drop_last() =~= d.subrange(0, k));
    } else {
        assert(d.subrange(0, k) =~= d);
    }
}

/// `str::parse` into an unsigned integer type whose largest value is `max`.
pub fn parse_unsigned(s: &str, max: u64) -> (r: Option<u64>)
    requires
        max <= u32::MAX,
    ensures
        match r {
            Some(v) => parse_unsigned_spec(s@, max as nat) == Some(v as nat),
            None => parse_unsigned_spec(s@, max as nat) is None,
        },
{
    let cs = chars_of(s);
    let n = cs.len();
    let start: usize = if n > 0 && cs[0] == '+' { 1 } else { 0 };
    let ghost d = unsigned_body(s@);
    assert(d =~= s@.subrange(start as int, n as int));
    if start == n {
        return None;
    }
    let mut value: u64 = 0;
    let mut i: usize = start;
    while i < n
        invariant
            n == s@.len(),
            cs@ == s@,
            start <= i <= n,
            d == s@.subrange(start as int, n as int),
            d == unsigned_body(s@),
            max <= u32::MAX,
            value <= max,
            all_digits(d.subrange(0, i - start)),
            value == digits_value(d.subrange(0, i - start)),
        decreases n - i,
    {
        let c = cs[i];
        if !('0' <= c && c <= '9') {
            assert(d[i - start] == c);
            return None;
        }
        let ghost pre = d.subrange(0, i - start);
        let ghost post = d.subrange(0, i - start + 1);
        assert(post.drop_last() =~= pre);
        assert(post.last() == c);
        let next = value * 10 + ((c as u32) - ('0' as u32)) as u64;
        assert(all_digits(post)) by {
            assert forall|j: int| 0 <= j < post.len() implies is_ascii_digit(#[trigger] post[j]) by {
                if j < pre.len() {
                    assert(post[j] == pre[j]);
                }
            }
        }
        if next > max {
            proof {
                if all_digits(d) {
                    lemma_digits_value_grows(d, i - start + 1);
                }
            }
            return None;
        }
        value = next;
        i = i + 1;
    }
    assert(d.subrange(0, n - start) =~= d);
    Some(value)
}

/// Lexicographic order of strings by code point, which is the order of
/// `String` (byte order of UTF-8).
pub open spec fn text_less(a: Seq<char>, b: Seq<char>) -> bool
    decreases a.len(),
{
    if a.len() == 0 {
        b.len() > 0
    } else if b.len() == 0 {
        false
    } else if a[0] != b[0] {
        a[0] < b[0]
    } else {
        text_less(a.drop_first(), b.drop_first())
    }
}

pub proof fn lemma_text_less_irreflexive(a: Seq<char>)
    ensures
        !text_less(a, a),
    decreases a.len(),
{
    if a.len() > 0 {
        lemma_text_less_irreflexive(a.drop_first());
    }
}

pub proof fn lemma_text_less_asymmetric(a: Seq<char>, b: Seq<char>)
    requires
        text_less(a, b),
    ensures
        !text_less(b, a),
    decreases a.len(),
{
    if a.len() > 0 && b.len() > 0 && a[0] == b[0] {
        lemma_text_less_asymmetric(a.drop_first(), b.drop_first());
    }
}

pub proof fn lemma_text_less_transitive(a: Seq<char>, b: Seq<char>, c: Seq<char>)
    requires
        text_less(a, b),
        text_less(b, c),
    ensures
        text_less(a, c),
    decreases a.len(),
{
    if a.len() > 0 && b.len() > 0 && c.len() > 0 && a[0] == b[0] && b[0] == c[0] {
        lemma_text_less_transitive(a.drop_first(), b.drop_first(), c.drop_first());
    }
}

pub proof fn lemma_text_less_total(a: Seq<char>, b: Seq<char>)
    ensures
        a == b || text_less(a, b) || text_less(b, a),
    decreases a.len(),
{
    if a.len() > 0 && b.len() > 0 && a[0] == b[0] {
        lemma_text_less_total(a.drop_first(), b.drop_first());
        if a.drop_first() == b.drop_first() {
            assert(a =~= seq![a[0]] + a.drop_first());
            assert(b =~= seq![b[0]] + b.drop_first());
        }
    } else if a.len() == 0 && b.len() == 0 {
        assert(a =~= b);
    } else if a.len() > 0 && b.len() > 0 {
    }
}

/// The order of strings is that of their characters' code points at the
/// first place where two strings differ: after any common beginning `p`, a
/// string whose next character has the smaller code point comes first,
/// whatever follows.
pub proof fn lemma_text_less_first_difference(
    p: Seq<char>,
    c: char,
    x: Seq<char>,
    d: char,
    y: Seq<char>,
)
    requires
        c != d,
    ensures
        text_less(p + seq![c] + x, p + seq![d] + y) <==> (c as u32) < (d as u32),
    decreases p.len(),
{
    let a = p + seq![c] + x;
    let b = p + seq![d] + y;
    if p.len() == 0 {
        assert(a[0] == c);
        assert(b[0] == d);
    } else {
        assert(a[0] == p[0]);
        assert(b[0] == p[0]);
        lemma_text_less_first_difference(p.drop_first(), c, x, d, y);
        assert(a.drop_first() =~= p.drop_first() + seq![c] + x);
        assert(b.drop_first() =~= p.drop_first() + seq![d] + y);
    }
}

/// A string comes before every longer string that begins with it, and after
/// none.
pub proof fn lemma_text_less_prefix(p: Seq<char>, x: Seq<char>)
    ensures
        text_less(p, p + x) <==> x.len() > 0,
        !text_less(p + x, p),
    decreases p.len(),
{
    let b = p + x;
    if p.len() == 0 {
        assert(b =~= x);
    } else {
        assert(b[0] == p[0]);
        lemma_text_less_prefix(p.drop_first(), x);
        assert(b.drop_first() =~= p.drop_first() + x);
    }
}

/// Where one string stands against another in the order of strings.
pub enum TextRank {
    Before,
    Same,
    After,
}

proof fn lemma_text_less_skip(a: Seq<char>, b: Seq<char>, i: int)
    requires
        0 <= i <= a.len(),
        i <= b.len(),
        a.subrange(0, i) == b.subrange(0, i),
    ensures
        text_less(a, b) == text_less(a.subrange(i, a.len() as int), b.subrange(i, b.len() as int)),
    decreases i,
{
    if i > 0 {
        assert(a[0] == a.subrange(0, i)[0]);
        assert(b[0] == b.subrange(0, i)[0]);
        let a1 = a.drop_first();
        let b1 = b.drop_first();
        assert(a1.subrange(0, i - 1) =~= a.subrange(0, i).drop_first());
        assert(b1.subrange(0, i - 1) =~= b.subrange(0, i).drop_first());
        lemma_text_less_skip(a1, b1, i - 1);
        assert(a1.subrange(i - 1, a1.len() as int) =~= a.subrange(i, a.len() as int));
        assert(b1.subrange(i - 1, b1.len() as int) =~= b.subrange(i, b.len() as int));
    } else {
        assert(a.subrange(0, a.len() as int) =~= a);
        assert(b.subrange(0, b.len() as int) =~= b);
    }
}

/// Compares two strings in the order of `String`.
pub fn rank_text(a: &str, b: &str) -> (r: TextRank)
    ensures
        r is Before <==> text_less(a@, b@),
        r is Same <==> a@ == b@,
        r is After <==> text_less(b@, a@),
{
    let ca = chars_of(a);
    let cb = chars_of(b);
    let mut i: usize = 0;
    while i < ca.len() && i < cb.len() && ca[i] == cb[i]
        invariant
            ca@ == a@,
            cb@ == b@,
            i <= a@.len(),
            i <= b@.len(),
            a@.subrange(0, i as int) == b@.subrange(0, i as int),
        decreases a@.len() - i,
    {
        assert(a@.subrange(0, i + 1) =~= a@.subrange(0, i as int).push(a@[i as int]));
        assert(b@.subrange(0, i + 1) =~= b@.subrange(0, i as int).push(b@[i as int]));
        i = i + 1;
    }
    proof {
        lemma_text_less_skip(a@, b@, i as int);
        lemma_text_less_skip(b@, a@, i as int);
        lemma_text_less_irreflexive(a@);
    }
    let ghost ra = a@.subrange(i as int, a@.len() as int);
    let ghost rb = b@.subrange(i as int, b@.len() as int);
    if i == ca.len() && i == cb.len() {
        assert(a@ =~= a@.subrange(0, i as int));
        assert(b@ =~= b@.subrange(0, i as int));
        TextRank::Same
    } else if i == ca.len() {
        assert(a@ != b@);
        assert(rb.len() > 0 && ra.len() == 0);
        TextRank::Before
    } else if i == cb.len() {
        assert(a@.len() != b@.len());
        TextRank::After
    } else {
        assert(ra[0] == a@[i as int] && rb[0] == b@[i as int]);
        assert(a@[i as int] != b@[i as int]);
        if ca[i] < cb[i] {
            TextRank::Before
        } else {
            TextRank::After
        }
    }
}

/// `a < b` in the order of `String`.
pub fn text_precedes(a: &str, b: &str) -> (r: bool)
    ensures
        r == text_less(a@, b@),
{
    match rank_text(a, b) {
        TextRank::Before => true,
        _ => false,
    }
}

/// String equality by contents.
pub fn text_equal(a: &str, b: &str) -> (r: bool)
    ensures
        r == (a@ == b@),
{
    match rank_text(a, b) {
        TextRank::Same => true,
        _ => false,
    }
}


/// The three texts one after the other.
pub fn concat3(a: &str, b: &str, c: &str) -> (r: String)
    ensures
        r@ == a@ + b@ + c@,
{
    let mut r = String::from_str(a);
    r.append(b);
    r.append(c);
    r
}

pub open spec fn is_ascii_text(s: Seq<char>) -> bool {
    forall|i: int| 0 <= i < s.len() ==> (#[trigger] s[i] as u32) < 128
}

/// `A`-`Z` to `a`-`z`; every other character kept.
pub open spec fn ascii_lower_char(c: char) -> char {
    if 'A' <= c && c <= 'Z' {
        ((c as u32) + 32) as char
    } else {
        c
    }
}

/// `a`-`z` to `A`-`Z`; every other character kept.
pub open spec fn ascii_upper_char(c: char) -> char {
    if 'a' <= c && c <= 'z' {
        ((c as u32) - 32) as char
    } else {
        c
    }
}

/// `str::to_ascii_uppercase`.
pub open spec fn ascii_upper(s: Seq<char>) -> Seq<char> {
    s.map_values(|c: char| ascii_upper_char(c))
}

/// The lowercase form that `str::to_lowercase` gives of a text beyond ASCII
/// (the Unicode lowercase mapping), applied to the text with its ASCII
/// letters already in upper case. Only the name is given.
pub uninterp spec fn unicode_lowercase_of(s: Seq<char>) -> Seq<char>;

/// The lowercase form of a text by `str::to_lowercase`: for ASCII text, each
/// letter `A`-`Z` becomes `a`-`z` and every other character is kept; beyond
/// ASCII, the Unicode mapping, which is only named. That mapping lowercases
/// character by character (`char::to_lowercase`), and `a` and `A` both give
/// `a`; the one rule that looks at neighbours, the final sigma, asks only
/// whether they are cased letters, which `a` and `A` both are. So the result
/// depends on the text only up to the case of its ASCII letters.
pub open spec fn lowercase_of(s: Seq<char>) -> Seq<char> {
    if is_ascii_text(s) {
        s.map_values(|c: char| ascii_lower_char(c))
    } else {
        unicode_lowercase_of(ascii_upper(s))
    }
}

/// Calls `str::to_lowercase`. Claimed: on ASCII text the letters `A`-`Z`
/// become `a`-`z` and the rest is kept; on other text the result is
/// `unicode_lowercase_of` of the text with its ASCII letters upper-cased, a
/// function of the text alone that the case of its ASCII letters does not
/// change.
#[verifier::external_body]
pub(crate) fn to_lowercase(s: &str) -> (r: String)
    ensures
        is_ascii_text(s@) ==> r@ == s@.map_values(|c: char| ascii_lower_char(c)),
        !is_ascii_text(s@) ==> r@ == unicode_lowercase_of(ascii_upper(s@)),
        r@ == lowercase_of(s@),
{
    s.to_lowercase()
}

/// The character of a decimal digit.
pub open spec fn digit_char(d: nat) -> char {
    (('0' as u32) + d) as char
}

/// The decimal writing of a natural number, without leading zeros.
pub open spec fn decimal_spec(n: nat) -> Seq<char>
    decreases n,
{
    if n < 10 {
        seq![digit_char(n)]
    } else {
        decimal_spec(n / 10).push(digit_char(n % 10))
    }
}

/// The decimal writing of a number reads back as that number: it is a run
/// of digits with no whitespace around it, and it parses to the number
/// wherever the number is within the limit.
pub proof fn lemma_decimal_reads_back(n: nat, max: nat)
    ensures
        decimal_spec(n).len() > 0,
        all_digits(decimal_spec(n)),
        digits_value(decimal_spec(n)) == n,
        trim_spec(decimal_spec(n)) == decimal_spec(n),
        parse_unsigned_spec(decimal_spec(n), max) == (if n <= max {
            Some(n)
        } else {
            None::<nat>
        }),
{
    lemma_decimal_digits(n);
    let s = decimal_spec(n);
    assert(is_ascii_digit(s[0]));
    assert(is_ascii_digit(s.last()));
    assert(!is_white_space(s[0]));
    assert(!is_white_space(s.last()));
    assert(trim_start_spec(s) == s);
    assert(trim_end_spec(s) == s);
    assert(unsigned_body(s) == s);
}

proof fn lemma_decimal_digits(n: nat)
    ensures
        decimal_spec(n).len() > 0,
        all_digits(decimal_spec(n)),
        digits_value(decimal_spec(n)) == n,
    decreases n,
{
    if n < 10 {
        let s = decimal_spec(n);
        assert(s.drop_last() =~= Seq::<char>::empty());
        assert(s.last() == digit_char(n));
        assert(digit_value(digit_char(n)) == n);
        assert(digits_value(s) == digits_value(s.drop_last()) * 10 + digit_value(s.last()));
    } else {
        lemma_decimal_digits(n / 10);
        let q = decimal_spec(n / 10);
        let s = decimal_spec(n);
        assert(s == q.push(digit_char(n % 10)));
        assert(s.drop_last() =~= q);
        assert(s.last() == digit_char(n % 10));
        assert(digit_value(digit_char(n % 10)) == n % 10);
        assert(digits_value(s) == digits_value(q) * 10 + n % 10);
        assert(n == (n / 10) * 10 + n % 10);
        assert forall|i: int| 0 <= i < s.len() implies is_ascii_digit(#[trigger] s[i]) by {
            if i < q.len() {
                assert(s[i] == q[i]);
            }
        }
    }
}

pub(crate) fn digit_str(d: u64) -> (r: &'static str)
    requires
        d < 10,
    ensures
        r@ == seq![digit_char(d as nat)],
{
    proof {
        reveal_strlit("0");
        reveal_strlit("1");
        reveal_strlit("2");
        reveal_strlit("3");
        reveal_strlit("4");
        reveal_strlit("5");
        reveal_strlit("6");
        reveal_strlit("7");
        reveal_strlit("8");
        reveal_strlit("9");
    }
    if d == 0 {
        "0"
    } else if d == 1 {
        "1"
    } else if d == 2 {
        "2"
    } else if d == 3 {
        "3"
    } else if d == 4 {
        "4"
    } else if d == 5 {
        "5"
    } else if d == 6 {
        "6"
    } else if d == 7 {
        "7"
    } else if d == 8 {
        "8"
    } else {
        "9"
    }
}

/// The decimal writing of a number, as `Display` writes an unsigned integer.
pub fn decimal_text(n: u64) -> (r: String)
    ensures
        r@ == decimal_spec(n as nat),
    decreases n,
{
    if n < 10 {
        String::from_str(digit_str(n))
    } else {
        let mut r = decimal_text(n / 10);
        r.append(digit_str(n % 10));
        r
    }
}

} // verus!
