use vstd::prelude::*;

verus! {

// ---------------------------------------------------------------------------
// Whitespace, as `char::is_whitespace` defines it (Unicode `White_Space`).
// ---------------------------------------------------------------------------

/// The characters that `char::is_whitespace` accepts: the Unicode `White_Space` property.
pub open spec fn is_ws(c: char) -> bool {
    ||| c == ' '
    ||| c == '\t'
    ||| c == '\n'
    ||| c == '\u{0B}'
    ||| c == '\u{0C}'
    ||| c == '\r'
    ||| c == '\u{85}'
    ||| c == '\u{A0}'
    ||| c == '\u{1680}'
    ||| ('\u{2000}' <= c && c <= '\u{200A}')
    ||| c == '\u{2028}'
    ||| c == '\u{2029}'
    ||| c == '\u{202F}'
    ||| c == '\u{205F}'
    ||| c == '\u{3000}'
}

pub fn char_is_ws(c: char) -> (b: bool)
    ensures
        b == is_ws(c),
{
    c == ' ' || c == '\t' || c == '\n' || c == '\u{0B}' || c == '\u{0C}' || c == '\r' || c
        == '\u{85}' || c == '\u{A0}' || c == '\u{1680}' || ('\u{2000}' <= c && c <= '\u{200A}')
        || c == '\u{2028}' || c == '\u{2029}' || c == '\u{202F}' || c == '\u{205F}' || c
        == '\u{3000}'
}

// ---------------------------------------------------------------------------
// Strings as character sequences.
// ---------------------------------------------------------------------------

/// Appends one character to a string (`String::push`).
#[verifier::external_body]
pub(crate) fn push_char(s: &mut String, c: char)
    ensures
        final(s)@ == old(s)@.push(c),
{
    s.push(c);
}

/// Removes the last character of a string (`String::pop`).
#[verifier::external_body]
pub(crate) fn pop_char(s: &mut String) -> (r: Option<char>)
    ensures
        old(s)@.len() == 0 ==> r is None && final(s)@ == old(s)@,
        old(s)@.len() > 0 ==> r == Some(old(s)@.last()) && final(s)@ == old(s)@.drop_last(),
{
    s.pop()
}

/// The characters of a string slice, in order.
pub fn chars_of(s: &str) -> (v: Vec<char>)
    ensures
        v@ == s@,
{
    let mut v: Vec<char> = Vec::new();
    for c in it: s.chars()
        invariant
            v@ == it.seq().take(it.index() as int),
    {
        v.push(c);
    }
    v
}

/// A string holding the characters `s[from..to]`.
pub fn string_of(s: &Vec<char>, from: usize, to: usize) -> (r: String)
    requires
        from <= to <= s.len(),
    ensures
        r@ == s@.subrange(from as int, to as int),
{
    let mut r = String::new();
    let mut i = from;
    while i < to
        invariant
            from <= i <= to <= s.len(),
            r@ == s@.subrange(from as int, i as int),
        decreases to - i,
    {
        push_char(&mut r, s[i]);
        i = i + 1;
    }
    r
}

/// A string holding all of `s`.
pub fn string_of_all(s: &Vec<char>) -> (r: String)
    ensures
        r@ == s@,
{
    let r = string_of(s, 0, s.len());
    proof {
        assert(s@.subrange(0, s@.len() as int) == s@);
    }
    r
}

/// Appends the characters of `t` to `s`.
pub fn append_str(s: &mut String, t: &str)
    ensures
        final(s)@ == old(s)@ + t@,
{
    let chars = chars_of(t);
    let mut i: usize = 0;
    while i < chars.len()
        invariant
            0 <= i <= chars.len(),
            chars@ == t@,
            s@ == old(s)@ + t@.take(i as int),
        decreases chars.len() - i,
    {
        push_char(s, chars[i]);
        proof {
            assert(t@.take(i + 1) == t@.take(i as int).push(t@[i as int]));
        }
        i = i + 1;
    }
    proof {
        assert(t@.take(t@.len() as int) == t@);
    }
}

/// A fresh string with the characters of `t`.
pub fn string_from(t: &str) -> (r: String)
    ensures
        r@ == t@,
{
    let mut r = String::new();
    append_str(&mut r, t);
    r
}

/// Whether the characters `s` equal those of `t`.
pub fn chars_eq(s: &Vec<char>, t: &str) -> (b: bool)
    ensures
        b == (s@ == t@),
{
    let tc = chars_of(t);
    if s.len() != tc.len() {
        return false;
    }
    let mut i: usize = 0;
    while i < s.len()
        invariant
            0 <= i <= s.len(),
            s.len() == tc.len(),
            tc@ == t@,
            forall|k: int| 0 <= k < i ==> s@[k] == tc@[k],
        decreases s.len() - i,
    {
        if s[i] != tc[i] {
            return false;
        }
        i = i + 1;
    }
    proof {
        assert(s@ =~= tc@);
    }
    true
}

/// Whether two strings hold the same characters.
pub fn str_eq(s: &str, t: &str) -> (b: bool)
    ensures
        b == (s@ == t@),
{
    let sc = chars_of(s);
    chars_eq(&sc, t)
}

// ---------------------------------------------------------------------------
// Trimming (`str::trim`, `str::trim_start`, `str::trim_end`).
// ---------------------------------------------------------------------------

pub open spec fn trim_start(s: Seq<char>) -> Seq<char>
    decreases s.len(),
{
    if s.len() > 0 && is_ws(s[0]) {
        trim_start(s.drop_first())
    } else {
        s
    }
}

pub open spec fn trim_end(s: Seq<char>) -> Seq<char>
    decreases s.len(),
{
    if s.len() > 0 && is_ws(s.last()) {
        trim_end(s.drop_last())
    } else {
        s
    }
}

/// `str::trim`: the sequence with leading and trailing whitespace removed.
pub open spec fn trim(s: Seq<char>) -> Seq<char> {
    trim_end(trim_start(s))
}

pub proof fn lemma_trim_start_skip(s: Seq<char>, i: int)
    requires
        0 <= i <= s.len(),
        forall|k: int| 0 <= k < i ==> is_ws(#[trigger] s[k]),
    ensures
        trim_start(s) == trim_start(s.skip(i)),
    decreases i,
{
    if i > 0 {
        assert(is_ws(s[0]));
        let t = s.drop_first();
        assert forall|k: int| 0 <= k < i - 1 implies is_ws(#[trigger] t[k]) by {
            assert(t[k] == s[k + 1]);
        }
        lemma_trim_start_skip(t, i - 1);
        assert(t.skip(i - 1) =~= s.skip(i));
    } else {
        assert(s.skip(0) =~= s);
    }
}

pub proof fn lemma_trim_end_take(s: Seq<char>, j: int)
    requires
        0 <= j <= s.len(),
        forall|k: int| j <= k < s.len() ==> is_ws(#[trigger] s[k]),
    ensures
        trim_end(s) == trim_end(s.take(j)),
    decreases s.len() - j,
{
    if j < s.len() {
        assert(is_ws(s.last()));
        let t = s.drop_last();
        assert forall|k: int| j <= k < t.len() implies is_ws(#[trigger] t[k]) by {
            assert(t[k] == s[k]);
        }
        lemma_trim_end_take(t, j);
        assert(t.take(j) =~= s.take(j));
    } else {
        assert(s.take(j) =~= s);
    }
}

/// Whether every character of `s` is whitespace.
pub open spec fn all_ws(s: Seq<char>) -> bool {
    forall|i: int| 0 <= i < s.len() ==> is_ws(#[trigger] s[i])
}

pub proof fn lemma_trim_start_all_ws(s: Seq<char>)
    requires
        all_ws(s),
    ensures
        trim_start(s) == Seq::<char>::empty(),
{
    lemma_trim_start_skip(s, s.len() as int);
    assert(s.skip(s.len() as int) =~= Seq::<char>::empty());
}

pub proof fn lemma_trim_end_all_ws(s: Seq<char>)
    requires
        all_ws(s),
    ensures
        trim_end(s) == Seq::<char>::empty(),
{
    lemma_trim_end_take(s, 0);
    assert(s.take(0) =~= Seq::<char>::empty());
}

/// Text after a part that is not all whitespace survives `trim_start` untouched.
pub proof fn lemma_trim_start_append(y: Seq<char>, z: Seq<char>)
    requires
        !all_ws(y),
    ensures
        trim_start(y + z) == trim_start(y) + z,
    decreases y.len(),
{
    let i = choose|i: int| 0 <= i < y.len() && !is_ws(#[trigger] y[i]);
    if is_ws(y[0]) {
        let t = y.drop_first();
        assert(t[i - 1] == y[i]);
        lemma_trim_start_append(t, z);
        assert((y + z).drop_first() =~= t + z);
        assert((y + z)[0] == y[0]);
    } else {
        assert((y + z)[0] == y[0]);
    }
}

/// Text before a part that is not all whitespace survives `trim_end` untouched.
pub proof fn lemma_trim_end_prepend(a: Seq<char>, y: Seq<char>)
    requires
        !all_ws(y),
    ensures
        trim_end(a + y) == a + trim_end(y),
    decreases y.len(),
{
    let i = choose|i: int| 0 <= i < y.len() && !is_ws(#[trigger] y[i]);
    if is_ws(y.last()) {
        let t = y.drop_last();
        assert(i < y.len() - 1);
        assert(t[i] == y[i]);
        lemma_trim_end_prepend(a, t);
        assert((a + y).drop_last() =~= a + t);
        assert((a + y).last() == y.last());
    } else {
        assert((a + y).last() == y.last());
    }
}

/// `trim_start` of `x` followed by text that starts with a non-whitespace character.
pub proof fn lemma_trim_start_before(x: Seq<char>, z: Seq<char>)
    requires
        z.len() > 0,
        !is_ws(z[0]),
    ensures
        trim_start(x + z) == trim_start(x) + z,
{
    if all_ws(x) {
        lemma_trim_start_all_ws(x);
        let s = x + z;
        assert forall|k: int| 0 <= k < x.len() implies is_ws(#[trigger] s[k]) by {
            assert(s[k] == x[k]);
        }
        lemma_trim_start_skip(s, x.len() as int);
        assert(s.skip(x.len() as int) =~= z);
        assert(Seq::<char>::empty() + z =~= z);
    } else {
        lemma_trim_start_append(x, z);
    }
}

/// `trim_end` of text that ends with a non-whitespace character, followed by `y`.
pub proof fn lemma_trim_end_after(a: Seq<char>, y: Seq<char>)
    requires
        a.len() > 0,
        !is_ws(a.last()),
    ensures
        trim_end(a + y) == a + trim_end(y),
{
    if all_ws(y) {
        lemma_trim_end_all_ws(y);
        let s = a + y;
        assert forall|k: int| a.len() <= k < s.len() implies is_ws(#[trigger] s[k]) by {
            assert(s[k] == y[k - a.len()]);
        }
        lemma_trim_end_take(s, a.len() as int);
        assert(s.take(a.len() as int) =~= a);
        assert(a + Seq::<char>::empty() =~= a);
    } else {
        lemma_trim_end_prepend(a, y);
    }
}

/// Whitespace around text changes nothing of what `trim` gives.
pub proof fn lemma_trim_pad(w1: Seq<char>, y: Seq<char>, w2: Seq<char>)
    requires
        all_ws(w1),
        all_ws(w2),
    ensures
        trim(w1 + y + w2) == trim(y),
{
    let s = w1 + y + w2;
    assert forall|k: int| 0 <= k < w1.len() implies is_ws(#[trigger] s[k]) by {
        assert(s[k] == w1[k]);
    }
    lemma_trim_start_skip(s, w1.len() as int);
    assert(s.skip(w1.len() as int) =~= y + w2);
    if all_ws(y) {
        let u = y + w2;
        assert forall|k: int| 0 <= k < u.len() implies is_ws(#[trigger] u[k]) by {
            if k < y.len() {
                assert(u[k] == y[k]);
            } else {
                assert(u[k] == w2[k - y.len()]);
            }
        }
        lemma_trim_start_all_ws(u);
        lemma_trim_start_all_ws(y);
    } else {
        lemma_trim_start_append(y, w2);
        let t = trim_start(y) + w2;
        assert forall|k: int| trim_start(y).len() <= k < t.len() implies is_ws(#[trigger] t[k]) by {
            assert(t[k] == w2[k - trim_start(y).len()]);
        }
        lemma_trim_end_take(t, trim_start(y).len() as int);
        assert(t.take(trim_start(y).len() as int) =~= trim_start(y));
    }
}

/// `trim_start` drops a whitespace prefix.
pub proof fn lemma_trim_start_cut(z: Seq<char>) -> (i: int)
    ensures
        0 <= i <= z.len(),
        all_ws(z.take(i)),
        trim_start(z) == z.skip(i),
        i < z.len() ==> !is_ws(z[i]),
    decreases z.len(),
{
    if z.len() > 0 && is_ws(z[0]) {
        let t = z.drop_first();
        let j = lemma_trim_start_cut(t);
        let i = j + 1;
        assert forall|k: int| 0 <= k < i implies is_ws(#[trigger] z.take(i)[k]) by {
            if k > 0 {
                assert(z.take(i)[k] == t.take(j)[k - 1]);
            }
        }
        assert(t.skip(j) =~= z.skip(i));
        i
    } else {
        assert(z.skip(0) =~= z);
        0
    }
}

/// `trim_end` drops a whitespace suffix.
pub proof fn lemma_trim_end_cut(z: Seq<char>) -> (j: int)
    ensures
        0 <= j <= z.len(),
        all_ws(z.skip(j)),
        trim_end(z) == z.take(j),
    decreases z.len(),
{
    if z.len() > 0 && is_ws(z.last()) {
        let t = z.drop_last();
        let j = lemma_trim_end_cut(t);
        assert forall|k: int| 0 <= k < z.len() - j implies is_ws(#[trigger] z.skip(j)[k]) by {
            if j + k < t.len() {
                assert(z.skip(j)[k] == t.skip(j)[k]);
            }
        }
        assert(t.take(j) =~= z.take(j));
        j
    } else {
        assert(z.take(z.len() as int) =~= z);
        z.len() as int
    }
}

/// Trimming what `trim_start` or `trim_end` left gives `trim` of the whole.
pub proof fn lemma_trim_of_trimmed(z: Seq<char>)
    ensures
        trim(trim_start(z)) == trim(z),
        trim(trim_end(z)) == trim(z),
{
    let i = lemma_trim_start_cut(z);
    lemma_trim_pad(z.take(i), z.skip(i), Seq::<char>::empty());
    assert(z.take(i) + z.skip(i) + Seq::<char>::empty() =~= z);
    let j = lemma_trim_end_cut(z);
    lemma_trim_pad(Seq::<char>::empty(), z.take(j), z.skip(j));
    assert(Seq::<char>::empty() + z.take(j) + z.skip(j) =~= z);
}

/// The bounds `(a, b)` with `s[a..b] == trim(s)`.
pub fn trim_bounds(s: &Vec<char>) -> (r: (usize, usize))
    ensures
        r.0 <= r.1 <= s.len(),
        s@.subrange(r.0 as int, r.1 as int) == trim(s@),
        trim_start(s@) == s@.skip(r.0 as int),
{
    let mut a: usize = 0;
    while a < s.len() && char_is_ws(s[a])
        invariant
            0 <= a <= s.len(),
            forall|k: int| 0 <= k < a ==> is_ws(#[trigger] s@[k]),
        decreases s.len() - a,
    {
        a = a + 1;
    }
    proof {
        lemma_trim_start_skip(s@, a as int);
        let t = s@.skip(a as int);
        if t.len() > 0 {
            assert(t[0] == s@[a as int]);
        }
        assert(trim_start(t) == t);
    }
    let mut b: usize = s.len();
    while b > a && char_is_ws(s[b - 1])
        invariant
            a <= b <= s.len(),
            forall|k: int| b <= k < s.len() ==> is_ws(#[trigger] s@[k]),
        decreases b - a,
    {
        b = b - 1;
    }
    proof {
        let t = s@.skip(a as int);
        assert forall|k: int| (b - a) <= k < t.len() implies is_ws(#[trigger] t[k]) by {
            assert(t[k] == s@[k + a]);
        }
        lemma_trim_end_take(t, (b - a) as int);
        let u = t.take((b - a) as int);
        assert(u =~= s@.subrange(a as int, b as int));
        if u.len() > 0 {
            assert(u.last() == s@[b - 1]);
        }
        assert(trim_end(u) == u);
    }
    (a, b)
}

/// `str::trim` on a character vector.
pub fn trim_chars(s: &Vec<char>) -> (r: Vec<char>)
    ensures
        r@ == trim(s@),
{
    let (a, b) = trim_bounds(s);
    slice_chars(s, a, b)
}

/// The characters `s[from..to]`.
pub fn slice_chars(s: &Vec<char>, from: usize, to: usize) -> (r: Vec<char>)
    requires
        from <= to <= s.len(),
    ensures
        r@ == s@.subrange(from as int, to as int),
{
    let mut r: Vec<char> = Vec::new();
    let mut i = from;
    while i < to
        invariant
            from <= i <= to <= s.len(),
            r@ == s@.subrange(from as int, i as int),
        decreases to - i,
    {
        r.push(s[i]);
        i = i + 1;
    }
    r
}


// ---------------------------------------------------------------------------
// Splitting on whitespace (`str::split_whitespace`, `str::split_once`).
// ---------------------------------------------------------------------------

/// The number of leading characters of `s` that are not whitespace: the index of the
/// first whitespace character, or the length of `s` when there is none.
pub open spec fn word_len(s: Seq<char>) -> nat
    decreases s.len(),
{
    if s.len() == 0 || is_ws(s[0]) {
        0
    } else {
        1 + word_len(s.drop_first())
    }
}

/// `str::split_whitespace`: the maximal runs of non-whitespace characters, in order.
pub open spec fn tokens(s: Seq<char>) -> Seq<Seq<char>>
    decreases s.len(),
{
    if s.len() == 0 {
        seq![]
    } else if is_ws(s[0]) {
        tokens(s.drop_first())
    } else {
        let n = word_len(s) as int;
        proof {
            lemma_word_len_bound(s);
        }
        seq![s.take(n)] + tokens(s.skip(n))
    }
}

/// The tokens joined with one space between neighbours (`[&str]::join(" ")`).
pub open spec fn join_spaced(ts: Seq<Seq<char>>) -> Seq<char>
    decreases ts.len(),
{
    if ts.len() == 0 {
        seq![]
    } else if ts.len() == 1 {
        ts[0]
    } else {
        join_spaced(ts.drop_last()) + seq![' '] + ts.last()
    }
}

pub proof fn lemma_word_len_bound(s: Seq<char>)
    ensures
        word_len(s) <= s.len(),
        s.len() > 0 && !is_ws(s[0]) ==> word_len(s) > 0,
    decreases s.len(),
{
    if s.len() > 0 && !is_ws(s[0]) {
        lemma_word_len_bound(s.drop_first());
    }
}

proof fn lemma_word_len(s: Seq<char>, n: int)
    requires
        0 <= n <= s.len(),
        forall|k: int| 0 <= k < n ==> !is_ws(#[trigger] s[k]),
        n == s.len() || is_ws(s[n]),
    ensures
        word_len(s) == n,
    decreases n,
{
    if n > 0 {
        let t = s.drop_first();
        assert forall|k: int| 0 <= k < n - 1 implies !is_ws(#[trigger] t[k]) by {
            assert(t[k] == s[k + 1]);
        }
        if n < s.len() {
            assert(t[n - 1] == s[n]);
        }
        lemma_word_len(t, n - 1);
    }
}

/// A word: one or more characters, none of them whitespace.
pub open spec fn is_word(w: Seq<char>) -> bool {
    w.len() > 0 && forall|i: int| 0 <= i < w.len() ==> !is_ws(#[trigger] w[i])
}

/// A word followed by a space and more text splits into that word, then the words of the
/// text.
pub proof fn lemma_tokens_word_then(w: Seq<char>, rest: Seq<char>)
    requires
        is_word(w),
    ensures
        tokens(w + seq![' '] + rest) == seq![w] + tokens(rest),
{
    let s = w + seq![' '] + rest;
    assert forall|k: int| 0 <= k < w.len() implies !is_ws(#[trigger] s[k]) by {
        assert(s[k] == w[k]);
    }
    assert(s[w.len() as int] == ' ');
    lemma_word_len(s, w.len() as int);
    assert(s[0] == w[0]);
    assert(s.take(w.len() as int) =~= w);
    let after = s.skip(w.len() as int);
    assert(after =~= seq![' '] + rest);
    assert(after.drop_first() =~= rest);
    assert(is_ws(after[0]));
    assert(tokens(after) == tokens(after.drop_first()));
    assert(tokens(s) == seq![s.take(word_len(s) as int)] + tokens(s.skip(word_len(s) as int)));
}

/// A single word splits into itself.
pub proof fn lemma_tokens_word(w: Seq<char>)
    requires
        is_word(w),
    ensures
        tokens(w) == seq![w],
{
    lemma_word_len(w, w.len() as int);
    assert(w.take(w.len() as int) =~= w);
    assert(w.skip(w.len() as int) =~= Seq::<char>::empty());
    assert(tokens(Seq::<char>::empty()) == Seq::<Seq<char>>::empty());
    assert(!is_ws(w[0]));
    assert(tokens(w) == seq![w.take(word_len(w) as int)] + tokens(w.skip(word_len(w) as int)));
    assert(seq![w] + Seq::<Seq<char>>::empty() =~= seq![w]);
}

/// The index of the first whitespace character of `s[from..]`, or `s.len()`.
pub fn find_ws(s: &Vec<char>, from: usize) -> (r: usize)
    requires
        from <= s.len(),
    ensures
        from <= r <= s.len(),
        forall|k: int| from <= k < r ==> !is_ws(#[trigger] s@[k]),
        r == s.len() || is_ws(s@[r as int]),
        word_len(s@.skip(from as int)) == r - from,
{
    let mut i = from;
    while i < s.len() && !char_is_ws(s[i])
        invariant
            from <= i <= s.len(),
            forall|k: int| from <= k < i ==> !is_ws(#[trigger] s@[k]),
        decreases s.len() - i,
    {
        i = i + 1;
    }
    proof {
        let t = s@.skip(from as int);
        assert forall|k: int| 0 <= k < i - from implies !is_ws(#[trigger] t[k]) by {
            assert(t[k] == s@[k + from]);
        }
        if i < s.len() {
            assert(t[i - from] == s@[i as int]);
        }
        lemma_word_len(t, i - from);
    }
    i
}

pub open spec fn view_tokens(ts: Seq<Vec<char>>) -> Seq<Seq<char>> {
    ts.map_values(|t: Vec<char>| t@)
}

/// `str::split_whitespace`, collected.
pub fn split_ws(s: &Vec<char>) -> (r: Vec<Vec<char>>)
    ensures
        view_tokens(r@) == tokens(s@),
{
    let mut r: Vec<Vec<char>> = Vec::new();
    let mut i: usize = 0;
    proof {
        assert(s@.skip(0) =~= s@);
    }
    while i < s.len()
        invariant
            0 <= i <= s.len(),
            view_tokens(r@) + tokens(s@.skip(i as int)) == tokens(s@),
        decreases s.len() - i,
    {
        let ghost rest = s@.skip(i as int);
        if char_is_ws(s[i]) {
            proof {
                assert(rest[0] == s@[i as int]);
                assert(rest.drop_first() =~= s@.skip(i + 1));
            }
            i = i + 1;
        } else {
            let j = find_ws(s, i);
            let w = slice_chars(s, i, j);
            proof {
                assert(rest[0] == s@[i as int]);
                assert(rest.take((j - i) as int) =~= w@);
                assert(rest.skip((j - i) as int) =~= s@.skip(j as int));
                assert(tokens(rest) == seq![w@] + tokens(s@.skip(j as int)));
            }
            let ghost before = r@;
            r.push(w);
            proof {
                assert(view_tokens(r@) =~= view_tokens(before) + seq![w@]);
                assert(view_tokens(r@) + tokens(s@.skip(j as int)) =~= view_tokens(before) + (
                seq![w@] + tokens(s@.skip(j as int))));
            }
            i = j;
        }
    }
    proof {
        assert(s@.skip(i as int).len() == 0);
        assert(view_tokens(r@) + seq![] =~= view_tokens(r@));
    }
    r
}

// ---------------------------------------------------------------------------
// Decimal numbers: `u16::from_str` and `Display` for unsigned integers.
// ---------------------------------------------------------------------------

pub open spec fn is_digit(c: char) -> bool {
    '0' <= c && c <= '9'
}

pub open spec fn digit_value(c: char) -> nat {
    (c as nat - '0' as nat) as nat
}

pub open spec fn all_digits(s: Seq<char>) -> bool {
    forall|i: int| 0 <= i < s.len() ==> is_digit(#[trigger] s[i])
}

/// The number that a string of decimal digits denotes.
pub open spec fn digits_value(s: Seq<char>) -> nat
    decreases s.len(),
{
    if s.len() == 0 {
        0
    } else {
        digits_value(s.drop_last()) * 10 + digit_value(s.last())
    }
}

/// `u16::from_str`: an optional `+`, then one or more decimal digits whose value fits.
pub open spec fn parse_u16_spec(s: Seq<char>) -> Option<u16> {
    let d = if s.len() > 0 && s[0] == '+' {
        s.drop_first()
    } else {
        s
    };
    if d.len() > 0 && all_digits(d) && digits_value(d) <= u16::MAX {
        Some(digits_value(d) as u16)
    } else {
        None
    }
}

proof fn lemma_digits_value_grows(s: Seq<char>, i: int, j: int)
    requires
        0 <= i <= j <= s.len(),
        all_digits(s),
    ensures
        digits_value(s.take(i)) <= digits_value(s.take(j)),
    decreases j - i,
{
    if i < j {
        lemma_digits_value_grows(s, i, j - 1);
        assert(s.take(j).drop_last() =~= s.take(j - 1));
    }
}

/// `u16::from_str` on a character sequence.
pub fn parse_u16_chars(s: &Vec<char>) -> (r: Option<u16>)
    ensures
        r == parse_u16_spec(s@),
{
    let start: usize = if s.len() > 0 && s[0] == '+' {
        1
    } else {
        0
    };
    let ghost d = s@.skip(start as int);
    proof {
        if start == 1 {
            assert(d =~= s@.drop_first());
        } else {
            assert(d =~= s@);
        }
    }
    if start >= s.len() {
        return None;
    }
    let mut value: u32 = 0;
    let mut i = start;
    while i < s.len()
        invariant
            start <= i <= s.len(),
            d == s@.skip(start as int),
            d == (if s@.len() > 0 && s@[0] == '+' {
                s@.drop_first()
            } else {
                s@
            }),
            all_digits(d.take(i - start)),
            value == digits_value(d.take(i - start)),
            value <= u16::MAX,
        decreases s.len() - i,
    {
        let c = s[i];
        proof {
            assert(d[i - start] == c);
        }
        if !('0' <= c && c <= '9') {
            proof {
                assert(!is_digit(d[i - start]));
            }
            return None;
        }
        let ghost prefix = d.take(i - start + 1);
        proof {
            assert(prefix.drop_last() =~= d.take(i - start));
            assert(prefix.last() == c);
            assert forall|k: int| 0 <= k < prefix.len() implies is_digit(#[trigger] prefix[k]) by {
                if k < prefix.len() - 1 {
                    assert(prefix[k] == d.take(i - start)[k]);
                }
            }
        }
        let next = value * 10 + ((c as u32) - ('0' as u32));
        proof {
            assert(digit_value(c) == (c as u32) - ('0' as u32));
            assert(digits_value(prefix) == next);
        }
        if next > 65535 {
            proof {
                if all_digits(d) {
                    lemma_digits_value_grows(d, i - start + 1, d.len() as int);
                    assert(d.take(d.len() as int) =~= d);
                }
            }
            return None;
        }
        value = next;
        i = i + 1;
    }
    proof {
        assert(d.take(i - start) =~= d);
    }
    Some(value as u16)
}

/// `u16::from_str` on a string slice.
pub fn parse_u16_str(s: &str) -> (r: Option<u16>)
    ensures
        r == parse_u16_spec(s@),
{
    let cs = chars_of(s);
    parse_u16_chars(&cs)
}

pub open spec fn digit_char(d: nat) -> char {
    (d + '0' as nat) as char
}

/// The decimal representation of `n`, as `Display` writes it.
pub open spec fn decimal(n: nat) -> Seq<char>
    decreases n,
{
    if n < 10 {
        seq![digit_char(n)]
    } else {
        decimal(n / 10).push(digit_char(n % 10))
    }
}

/// Decimal text is a word of digits that denotes its number.
pub proof fn lemma_decimal_digits(n: nat)
    ensures
        all_digits(decimal(n)),
        digits_value(decimal(n)) == n,
        is_word(decimal(n)),
        decimal(n)[0] != '+',
    decreases n,
{
    let k = n % 10;
    assert(digit_value(digit_char(k)) == k && is_digit(digit_char(k))) by {
        assert(k < 10);
        assert(((k + 48) as char) as nat == k + 48);
    }
    if n < 10 {
        let d = decimal(n);
        assert(d.drop_last() =~= Seq::<char>::empty());
        assert(d.last() == digit_char(n));
        assert(k == n);
        assert(digits_value(d.drop_last()) == 0);
        assert(digits_value(d) == digits_value(d.drop_last()) * 10 + digit_value(d.last()));
    } else {
        lemma_decimal_digits(n / 10);
        let d = decimal(n);
        let p = decimal(n / 10);
        assert(d.drop_last() =~= p);
        assert forall|i: int| 0 <= i < d.len() implies is_digit(#[trigger] d[i]) by {
            if i < d.len() - 1 {
                assert(d[i] == p[i]);
            }
        }
        assert forall|i: int| 0 <= i < d.len() implies !is_ws(#[trigger] d[i]) by {
            assert(is_digit(d[i]));
        }
        assert(d[0] == p[0]);
        assert(d.last() == digit_char(k));
        assert(digits_value(d) == digits_value(d.drop_last()) * 10 + digit_value(d.last()));
        assert(digits_value(p) == n / 10);
        assert((n / 10) * 10 + n % 10 == n);
    }
}

/// `u16::from_str` reads back the decimal text of a `u16`.
pub proof fn lemma_parse_decimal(x: u16)
    ensures
        parse_u16_spec(decimal(x as nat)) == Some(x),
{
    lemma_decimal_digits(x as nat);
}

/// Decimal text is ASCII, so it takes one byte per character.
pub proof fn lemma_ascii_decimal(n: nat)
    ensures
        vstd::utf8::is_ascii_chars(decimal(n)),
        vstd::utf8::encode_utf8(decimal(n)).len() == decimal(n).len(),
        decimal(n).len() <= n + 1,
    decreases n,
{
    if n >= 10 {
        lemma_ascii_decimal(n / 10);
        let d = decimal(n);
        assert forall|i: int| 0 <= i < d.len() implies '\0' <= #[trigger] d[i] <= '\u{7f}' by {
            if i < d.len() - 1 {
                assert(d[i] == decimal(n / 10)[i]);
            }
        }
    }
    vstd::utf8::is_ascii_chars_encode_utf8(decimal(n));
}

/// Appends the decimal representation of `n` to `s`.
pub fn push_decimal(s: &mut String, n: u64)
    ensures
        final(s)@ == old(s)@ + decimal(n as nat),
    decreases n,
{
    if n >= 10 {
        push_decimal(s, n / 10);
    }
    let d = (n % 10) as u32;
    let c = char_from_digit(d);
    push_char(s, c);
    proof {
        if n >= 10 {
            assert(old(s)@ + decimal(n as nat) =~= old(s)@ + decimal((n / 10) as nat) + seq![c]);
        } else {
            assert(old(s)@ + decimal(n as nat) =~= old(s)@.push(c));
        }
    }
}

fn char_from_digit(d: u32) -> (c: char)
    requires
        d < 10,
    ensures
        c == digit_char(d as nat),
{
    if d == 0 { '0' }
    else if d == 1 { '1' }
    else if d == 2 { '2' }
    else if d == 3 { '3' }
    else if d == 4 { '4' }
    else if d == 5 { '5' }
    else if d == 6 { '6' }
    else if d == 7 { '7' }
    else if d == 8 { '8' }
    else { '9' }
}

/// `n` written in decimal.
pub fn decimal_string(n: u64) -> (s: String)
    ensures
        s@ == decimal(n as nat),
{
    let mut s = String::new();
    push_decimal(&mut s, n);
    proof {
        assert(Seq::<char>::empty() + decimal(n as nat) =~= decimal(n as nat));
    }
    s
}

/// `count` spaces.
pub open spec fn spaces(count: nat) -> Seq<char> {
    Seq::new(count, |i: int| ' ')
}

/// Appends `count` spaces to `s`.
pub fn push_spaces(s: &mut String, count: usize)
    ensures
        final(s)@ == old(s)@ + spaces(count as nat),
{
    let mut i: usize = 0;
    while i < count
        invariant
            0 <= i <= count,
            s@ == old(s)@ + spaces(i as nat),
        decreases count - i,
    {
        push_char(s, ' ');
        proof {
            assert(old(s)@ + spaces((i + 1) as nat) =~= (old(s)@ + spaces(i as nat)).push(' '));
        }
        i = i + 1;
    }
}

/// `format!("{n:>width$}")`: `n` in decimal, padded with spaces on the left to `width`.
pub open spec fn right_aligned(n: nat, width: nat) -> Seq<char> {
    let d = decimal(n);
    if d.len() < width {
        spaces((width - d.len()) as nat) + d
    } else {
        d
    }
}

proof fn lemma_decimal_len(n: nat)
    ensures
        1 <= decimal(n).len(),
        n < 10 ==> decimal(n).len() == 1,
        n < 100 ==> decimal(n).len() <= 2,
        n < 1000 ==> decimal(n).len() <= 3,
        n < 10000 ==> decimal(n).len() <= 4,
        n < 100000 ==> decimal(n).len() <= 5,
    decreases n,
{
    if n >= 10 {
        lemma_decimal_len(n / 10);
    }
}

/// Appends `n` right-aligned in a field of `width` characters.
pub fn push_right_aligned(s: &mut String, n: u16, width: usize)
    ensures
        final(s)@ == old(s)@ + right_aligned(n as nat, width as nat),
{
    let d = decimal_string(n as u64);
    proof {
        lemma_decimal_len(n as nat);
    }
    let dc = chars_of(d.as_str());
    if dc.len() < width {
        push_spaces(s, width - dc.len());
    }
    append_str(s, d.as_str());
    proof {
        if dc.len() < width {
            assert(old(s)@ + right_aligned(n as nat, width as nat) =~= old(s)@ + spaces(
                (width - dc.len()) as nat,
            ) + decimal(n as nat));
        }
    }
}


// ---------------------------------------------------------------------------
// Searching for one character (`str::split_once(c)`, `str::starts_with`).
// ---------------------------------------------------------------------------

/// The index of the first `c` in `s`, or `s.len()` when there is none.
pub open spec fn index_of(s: Seq<char>, c: char) -> nat
    decreases s.len(),
{
    if s.len() == 0 || s[0] == c {
        0
    } else {
        1 + index_of(s.drop_first(), c)
    }
}

pub proof fn lemma_index_of(s: Seq<char>, c: char, n: int)
    requires
        0 <= n <= s.len(),
        forall|k: int| 0 <= k < n ==> #[trigger] s[k] != c,
        n == s.len() || s[n] == c,
    ensures
        index_of(s, c) == n,
    decreases n,
{
    if n > 0 {
        let t = s.drop_first();
        assert forall|k: int| 0 <= k < n - 1 implies #[trigger] t[k] != c by {
            assert(t[k] == s[k + 1]);
        }
        if n < s.len() {
            assert(t[n - 1] == s[n]);
        }
        lemma_index_of(t, c, n - 1);
    }
}

pub proof fn lemma_index_of_bound(s: Seq<char>, c: char)
    ensures
        index_of(s, c) <= s.len(),
        index_of(s, c) < s.len() ==> s[index_of(s, c) as int] == c,
    decreases s.len(),
{
    if s.len() > 0 && s[0] != c {
        lemma_index_of_bound(s.drop_first(), c);
    }
}

/// The index of the first `c` in `s[from..]` (counted from the start of `s`), or `s.len()`.
pub fn find_char(s: &Vec<char>, from: usize, c: char) -> (r: usize)
    requires
        from <= s.len(),
    ensures
        from <= r <= s.len(),
        index_of(s@.skip(from as int), c) == r - from,
{
    let mut i = from;
    while i < s.len() && s[i] != c
        invariant
            from <= i <= s.len(),
            forall|k: int| from <= k < i ==> #[trigger] s@[k] != c,
        decreases s.len() - i,
    {
        i = i + 1;
    }
    proof {
        let t = s@.skip(from as int);
        assert forall|k: int| 0 <= k < i - from implies #[trigger] t[k] != c by {
            assert(t[k] == s@[k + from]);
        }
        if i < s.len() {
            assert(t[i - from] == s@[i as int]);
        }
        lemma_index_of(t, c, i - from);
    }
    i
}

// ---------------------------------------------------------------------------
// UTF-8 byte lengths (`str::len`).
// ---------------------------------------------------------------------------

/// The number of bytes that UTF-8 encodes `c` in.
pub open spec fn char_utf8_len(c: char) -> nat {
    if (c as u32) < 0x80 {
        1
    } else if (c as u32) < 0x800 {
        2
    } else if (c as u32) < 0x10000 {
        3
    } else {
        4
    }
}

/// The number of bytes that UTF-8 encodes `s` in (`str::len`).
pub open spec fn utf8_len(s: Seq<char>) -> nat
    decreases s.len(),
{
    if s.len() == 0 {
        0
    } else {
        utf8_len(s.drop_last()) + char_utf8_len(s.last())
    }
}

pub open spec fn is_ascii_char(c: char) -> bool {
    (c as u32) < 0x80
}

pub open spec fn all_ascii(s: Seq<char>) -> bool {
    forall|i: int| 0 <= i < s.len() ==> is_ascii_char(#[trigger] s[i])
}

pub fn char_utf8_width(c: char) -> (n: usize)
    ensures
        n == char_utf8_len(c),
{
    let v = c as u32;
    if v < 0x80 {
        1
    } else if v < 0x800 {
        2
    } else if v < 0x10000 {
        3
    } else {
        4
    }
}

proof fn lemma_utf8_len_take_step(s: Seq<char>, k: int)
    requires
        0 <= k < s.len(),
    ensures
        utf8_len(s.take(k + 1)) == utf8_len(s.take(k)) + char_utf8_len(s[k]),
{
    assert(s.take(k + 1).drop_last() =~= s.take(k));
}

proof fn lemma_utf8_len_grows(s: Seq<char>, i: int, j: int)
    requires
        0 <= i <= j <= s.len(),
    ensures
        utf8_len(s.take(i)) + (j - i) <= utf8_len(s.take(j)),
    decreases j - i,
{
    if i < j {
        lemma_utf8_len_grows(s, i, j - 1);
        lemma_utf8_len_take_step(s, j - 1);
    }
}

pub proof fn lemma_utf8_len_ascii(s: Seq<char>)
    requires
        all_ascii(s),
    ensures
        utf8_len(s) == s.len(),
    decreases s.len(),
{
    if s.len() > 0 {
        assert(is_ascii_char(s[s.len() - 1]));
        lemma_utf8_len_ascii(s.drop_last());
    }
}

/// When the UTF-8 length of `s` is at most `limit`, that length and whether `s` is all
/// ASCII; `None` when the UTF-8 length exceeds `limit`.
pub fn utf8_scan(s: &Vec<char>, limit: usize) -> (r: Option<(usize, bool)>)
    requires
        limit <= 1_000_000,
    ensures
        r is None <==> utf8_len(s@) > limit,
        r matches Some(t) ==> t.0 == utf8_len(s@) && t.1 == all_ascii(s@),
{
    let mut total: usize = 0;
    let mut ascii = true;
    let mut i: usize = 0;
    proof {
        assert(s@.take(0) =~= Seq::<char>::empty());
        assert(utf8_len(s@.take(0)) == 0);
    }
    while i < s.len()
        invariant
            0 <= i <= s.len(),
            limit <= 1_000_000,
            total == utf8_len(s@.take(i as int)),
            total <= limit,
            ascii == all_ascii(s@.take(i as int)),
        decreases s.len() - i,
    {
        let w = char_utf8_width(s[i]);
        proof {
            lemma_utf8_len_take_step(s@, i as int);
        }
        total = total + w;
        if total > limit {
            proof {
                lemma_utf8_len_grows(s@, i + 1, s@.len() as int);
                assert(s@.take(s@.len() as int) =~= s@);
            }
            return None;
        }
        if w != 1 {
            ascii = false;
            proof {
                assert(!is_ascii_char(s@.take(i + 1)[i as int]));
            }
        } else {
            proof {
                if ascii {
                    assert forall|k: int| 0 <= k < i + 1 implies is_ascii_char(
                        #[trigger] s@.take(i + 1)[k],
                    ) by {
                        if k < i {
                            assert(s@.take(i + 1)[k] == s@.take(i as int)[k]);
                        }
                    }
                }
            }
        }
        if !ascii {
            proof {
                if all_ascii(s@.take(i + 1)) {
                    if w != 1 {
                        assert(is_ascii_char(s@.take(i + 1)[i as int]));
                    } else {
                        assert(!all_ascii(s@.take(i as int)));
                        let k = choose|k: int|
                            0 <= k < i && !is_ascii_char(#[trigger] s@.take(i as int)[k]);
                        assert(s@.take(i + 1)[k] == s@.take(i as int)[k]);
                    }
                }
            }
        }
        i = i + 1;
    }
    proof {
        assert(s@.take(s.len() as int) =~= s@);
    }
    Some((total, ascii))
}

} // verus!
