//! Character-level string helpers with their specifications.
//!
//! Strings are modelled by their view, a `Seq<char>`. The spec functions here
//! give the meaning of the `str` operations that the rest of the library uses
//! (trimming, splitting, searching, decimal numbers), and the executable
//! functions are proved against them.
use vstd::prelude::*;

verus! {

// ---------------------------------------------------------------------------
// Building strings
// ---------------------------------------------------------------------------

/// Appends one character to a `String` (`String::push`).
#[verifier::external_body]
pub(crate) fn push_char(s: &mut String, c: char)
    ensures
        final(s)@ == old(s)@.push(c),
{
    s.push(c);
}

/// The characters of a string slice, in order.
pub fn chars_of(s: &str) -> (v: Vec<char>)
    ensures
        v@ == s@,
{
    let mut v: Vec<char> = Vec::new();
    for c in it: s.chars()
        invariant
            v@ == it.seq().take(it.index() as int),
    {
        v.push(c);
    }
    v
}

/// Appends the characters `v[from..to]` to `out`.
pub fn push_chars(out: &mut String, v: &Vec<char>, from: usize, to: usize)
    requires
        from <= to <= v.len(),
    ensures
        final(out)@ == old(out)@ + v@.subrange(from as int, to as int),
{
    let mut i = from;
    while i < to
        invariant
            from <= i <= to <= v.len(),
            out@ == old(out)@ + v@.subrange(from as int, i as int),
        decreases to - i,
    {
        push_char(out, v[i]);
        assert(v@.subrange(from as int, i + 1) == v@.subrange(from as int, i as int).push(v@[i as int]));
        i = i + 1;
    }
}

/// A `String` holding the characters `v[from..to]`.
pub fn string_of(v: &Vec<char>, from: usize, to: usize) -> (s: String)
    requires
        from <= to <= v.len(),
    ensures
        s@ == v@.subrange(from as int, to as int),
{
    let mut s = String::new();
    push_chars(&mut s, v, from, to);
    s
}

/// Appends a string slice to `out`.
pub fn push_str(out: &mut String, s: &str)
    ensures
        final(out)@ == old(out)@ + s@,
{
    let v = chars_of(s);
    push_chars(out, &v, 0, v.len());
    assert(v@.subrange(0, v@.len() as int) == v@);
}

/// An owned copy of a string slice.
pub fn owned(s: &str) -> (r: String)
    ensures
        r@ == s@,
{
    let mut r = String::new();
    push_str(&mut r, s);
    r
}

/// The concatenation of two string slices.
pub fn concat2(a: &str, b: &str) -> (r: String)
    ensures
        r@ == a@ + b@,
{
    let mut r = owned(a);
    push_str(&mut r, b);
    r
}

/// The concatenation of three string slices.
pub fn concat3(a: &str, b: &str, c: &str) -> (r: String)
    ensures
        r@ == a@ + b@ + c@,
{
    let mut r = concat2(a, b);
    push_str(&mut r, c);
    r
}

// ---------------------------------------------------------------------------
// Comparing
// ---------------------------------------------------------------------------

/// Whether two character sequences are equal.
pub fn chars_eq(a: &Vec<char>, b: &Vec<char>) -> (r: bool)
    ensures
        r == (a@ == b@),
{
    if a.len() != b.len() {
        return false;
    }
    let mut i: usize = 0;
    while i < a.len()
        invariant
            a.len() == b.len(),
            i <= a.len(),
            forall|j: int| 0 <= j < i ==> a@[j] == b@[j],
        decreases a.len() - i,
    {
        if a[i] != b[i] {
            return false;
        }
        i = i + 1;
    }
    assert(a@ =~= b@);
    true
}

/// Whether two string slices hold the same characters.
pub fn str_eq(a: &str, b: &str) -> (r: bool)
    ensures
        r == (a@ == b@),
{
    let va = chars_of(a);
    let vb = chars_of(b);
    chars_eq(&va, &vb)
}

/// `p` is a prefix of `s`.
pub open spec fn has_prefix(s: Seq<char>, p: Seq<char>) -> bool {
    p.len() <= s.len() && s.take(p.len() as int) == p
}

/// `p` is a suffix of `s`.
pub open spec fn has_suffix(s: Seq<char>, p: Seq<char>) -> bool {
    p.len() <= s.len() && s.skip(s.len() - p.len()) == p
}

/// Whether `p` occurs in `s` at position `at`.
pub fn chars_match_at(s: &Vec<char>, at: usize, p: &Vec<char>) -> (r: bool)
    requires
        at <= s.len(),
    ensures
        r == has_prefix(s@.skip(at as int), p@),
{
    if p.len() > s.len() - at {
        return false;
    }
    let mut i: usize = 0;
    while i < p.len()
        invariant
            at + p.len() <= s.len(),
            i <= p.len(),
            forall|j: int| 0 <= j < i ==> s@[at + j] == p@[j],
        decreases p.len() - i,
    {
        if s[at + i] != p[i] {
            assert(s@.skip(at as int).take(p.len() as int)[i as int] == s@[at + i]);
            return false;
        }
        i = i + 1;
    }
    assert(s@.skip(at as int).take(p.len() as int) =~= p@);
    true
}

/// Whether `s` starts with `p`.
pub fn starts_with(s: &str, p: &str) -> (r: bool)
    ensures
        r == has_prefix(s@, p@),
{
    let vs = chars_of(s);
    let vp = chars_of(p);
    assert(vs@.skip(0) == vs@);
    chars_match_at(&vs, 0, &vp)
}

/// `p` occurs somewhere in `s`.
pub open spec fn has_infix(s: Seq<char>, p: Seq<char>) -> bool {
    exists|i: int| 0 <= i <= s.len() && #[trigger] has_prefix(s.skip(i), p)
}

/// Whether `p` occurs in `s` (`str::contains` with a string pattern).
pub fn contains(s: &str, p: &str) -> (r: bool)
    ensures
        r == has_infix(s@, p@),
{
    let vs = chars_of(s);
    let vp = chars_of(p);
    let mut i: usize = 0;
    loop
        invariant
            i <= vs.len(),
            vs@ == s@,
            vp@ == p@,
            forall|j: int| 0 <= j < i ==> !#[trigger] has_prefix(s@.skip(j), p@),
        decreases vs.len() - i,
    {
        if chars_match_at(&vs, i, &vp) {
            return true;
        }
        if i == vs.len() {
            return false;
        }
        i = i + 1;
    }
}

/// The lower-case form of a string, as `str::to_lowercase` gives it
/// (Unicode's lower-case mapping, which can change a string's length).
pub uninterp spec fn lowercase(s: Seq<char>) -> Seq<char>;

/// `str::to_lowercase`. Claimed: the result is `lowercase` of the argument;
/// the mapping itself is not stated.
#[verifier::external_body]
pub(crate) fn to_lowercase(s: &str) -> (r: String)
    ensures
        r@ == lowercase(s@),
{
    s.to_lowercase()
}

/// The first `n` characters of `s` (all of them if it is shorter).
pub open spec fn take_chars(s: Seq<char>, n: nat) -> Seq<char> {
    if s.len() <= n {
        s
    } else {
        s.take(n as int)
    }
}

/// The first `n` characters of `s` (`s.chars().take(n).collect()`).
pub fn prefix_chars(s: &str, n: usize) -> (r: String)
    ensures
        r@ == take_chars(s@, n as nat),
{
    let v = chars_of(s);
    let e = if v.len() <= n {
        v.len()
    } else {
        n
    };
    assert(v@.subrange(0, v.len() as int) =~= v@);
    assert(v@.subrange(0, e as int) =~= take_chars(s@, n as nat));
    string_of(&v, 0, e)
}

/// The first place where `p` occurs in `s`, if any.
pub open spec fn find_seq(s: Seq<char>, p: Seq<char>) -> Option<int>
    decreases s.len(),
{
    if has_prefix(s, p) {
        Some(0)
    } else if s.len() == 0 {
        None
    } else {
        match find_seq(s.drop_first(), p) {
            Some(i) => Some(i + 1),
            None => None,
        }
    }
}

proof fn lemma_find_seq_at(s: Seq<char>, p: Seq<char>, k: int)
    requires
        0 <= k <= s.len(),
        has_prefix(s.skip(k), p),
        forall|j: int| 0 <= j < k ==> !#[trigger] has_prefix(s.skip(j), p),
    ensures
        find_seq(s, p) == Some(k),
    decreases k,
{
    assert(s.skip(0) =~= s);
    if k > 0 {
        assert forall|j: int| 0 <= j < k - 1 implies !#[trigger] has_prefix(s.drop_first().skip(j), p) by {
            assert(s.drop_first().skip(j) =~= s.skip(j + 1));
        }
        assert(s.drop_first().skip(k - 1) =~= s.skip(k));
        lemma_find_seq_at(s.drop_first(), p, k - 1);
    }
}

proof fn lemma_find_seq_none(s: Seq<char>, p: Seq<char>)
    requires
        forall|j: int| 0 <= j <= s.len() ==> !#[trigger] has_prefix(s.skip(j), p),
    ensures
        find_seq(s, p) is None,
    decreases s.len(),
{
    assert(s.skip(0) =~= s);
    if s.len() > 0 {
        assert forall|j: int| 0 <= j <= s.len() - 1 implies !#[trigger] has_prefix(s.drop_first().skip(j), p) by {
            assert(s.drop_first().skip(j) =~= s.skip(j + 1));
        }
        lemma_find_seq_none(s.drop_first(), p);
    }
}

/// The first place at or after `from` where `p` occurs in `v`, if any.
pub fn find_chars(v: &Vec<char>, from: usize, p: &Vec<char>) -> (r: Option<usize>)
    requires
        from <= v.len(),
    ensures
        r is None <==> find_seq(v@.skip(from as int), p@) is None,
        r matches Some(k) ==> {
            &&& from <= k <= v.len()
            &&& find_seq(v@.skip(from as int), p@) == Some(k - from)
            &&& has_prefix(v@.skip(k as int), p@)
        },
{
    let ghost s = v@.skip(from as int);
    let mut pos: usize = from;
    loop
        invariant
            from <= pos <= v.len(),
            s == v@.skip(from as int),
            forall|j: int| 0 <= j < pos - from ==> !#[trigger] has_prefix(s.skip(j), p@),
        decreases v.len() - pos,
    {
        assert(s.skip(pos - from) =~= v@.skip(pos as int));
        if chars_match_at(v, pos, p) {
            proof {
                lemma_find_seq_at(s, p@, pos - from);
            }
            return Some(pos);
        }
        if pos == v.len() {
            proof {
                lemma_find_seq_none(s, p@);
            }
            return None;
        }
        pos = pos + 1;
    }
}

/// `s` with every leading copy of `p` removed (`str::trim_start_matches`
/// with a non-empty string pattern).
pub open spec fn trim_prefix_all(s: Seq<char>, p: Seq<char>) -> Seq<char>
    decreases s.len(),
{
    if p.len() > 0 && has_prefix(s, p) {
        trim_prefix_all(s.skip(p.len() as int), p)
    } else {
        s
    }
}

/// `str::trim_start_matches` with a non-empty string pattern.
pub fn trim_start_matches(s: &str, p: &str) -> (r: String)
    requires
        p@.len() > 0,
    ensures
        r@ == trim_prefix_all(s@, p@),
{
    let v = chars_of(s);
    let pv = chars_of(p);
    let mut pos: usize = 0;
    assert(v@.skip(0) =~= v@);
    loop
        invariant
            pos <= v.len(),
            v@ == s@,
            pv@ == p@,
            p@.len() > 0,
            trim_prefix_all(s@, p@) == trim_prefix_all(v@.skip(pos as int), p@),
        ensures
            pos <= v.len(),
            trim_prefix_all(s@, p@) == v@.skip(pos as int),
        decreases v.len() - pos,
    {
        if !chars_match_at(&v, pos, &pv) {
            break;
        }
        assert(v@.skip(pos as int).skip(pv@.len() as int) =~= v@.skip(pos + pv.len()));
        pos = pos + pv.len();
    }
    assert(v@.skip(pos as int) =~= v@.subrange(pos as int, v.len() as int));
    string_of(&v, pos, v.len())
}

/// The characters that `String::from_utf8_lossy` makes of `b`: the UTF-8
/// text, with U+FFFD in place of each invalid sequence.
pub uninterp spec fn utf8_lossy(b: Seq<u8>) -> Seq<char>;

/// `String::from_utf8_lossy`. Claimed: the result is `utf8_lossy` of the
/// bytes; the decoding itself is not stated.
#[verifier::external_body]
pub(crate) fn from_utf8_lossy(b: &[u8]) -> (r: String)
    ensures
        r@ == utf8_lossy(b@),
{
    String::from_utf8_lossy(b).into_owned()
}

/// Lexicographic order of character sequences by code point (the order of
/// `str::cmp`, since UTF-8 preserves code point order byte-wise).
pub open spec fn seq_le(a: Seq<char>, b: Seq<char>) -> bool
    decreases a.len(),
{
    if a.len() == 0 {
        true
    } else if b.len() == 0 {
        false
    } else if a[0] != b[0] {
        a[0] < b[0]
    } else {
        seq_le(a.drop_first(), b.drop_first())
    }
}

proof fn lemma_seq_le_step(a: Seq<char>, b: Seq<char>, i: int)
    requires
        0 <= i <= a.len(),
        i <= b.len(),
        forall|j: int| 0 <= j < i ==> a[j] == b[j],
    ensures
        seq_le(a, b) == seq_le(a.skip(i), b.skip(i)),
    decreases i,
{
    if i > 0 {
        assert(a[0] == b[0]);
        lemma_seq_le_step(a.drop_first(), b.drop_first(), i - 1);
        assert(a.drop_first().skip(i - 1) =~= a.skip(i));
        assert(b.drop_first().skip(i - 1) =~= b.skip(i));
    } else {
        assert(a.skip(0) =~= a);
        assert(b.skip(0) =~= b);
    }
}

/// `a` comes strictly before `b` in the lexicographic order.
pub open spec fn seq_lt(a: Seq<char>, b: Seq<char>) -> bool {
    seq_le(a, b) && a != b
}

/// The lexicographic order is total.
pub proof fn lemma_seq_le_total(a: Seq<char>, b: Seq<char>)
    ensures
        seq_le(a, b) || seq_le(b, a),
    decreases a.len(),
{
    if a.len() > 0 && b.len() > 0 {
        if a[0] == b[0] {
            lemma_seq_le_total(a.drop_first(), b.drop_first());
        } else {
        }
    }
}

/// The lexicographic order is antisymmetric.
pub proof fn lemma_seq_le_antisym(a: Seq<char>, b: Seq<char>)
    requires
        seq_le(a, b),
        seq_le(b, a),
    ensures
        a == b,
    decreases a.len(),
{
    if a.len() == 0 {
        assert(b.len() == 0);
        assert(a =~= b);
    } else {
        assert(b.len() > 0);
        if a[0] == b[0] {
            lemma_seq_le_antisym(a.drop_first(), b.drop_first());
            assert(a =~= seq![a[0]] + a.drop_first());
            assert(b =~= seq![b[0]] + b.drop_first());
        }
    }
}

/// The lexicographic order is transitive.
pub proof fn lemma_seq_le_trans(a: Seq<char>, b: Seq<char>, c: Seq<char>)
    requires
        seq_le(a, b),
        seq_le(b, c),
    ensures
        seq_le(a, c),
    decreases a.len(),
{
    if a.len() > 0 && b.len() > 0 && c.len() > 0 && a[0] == b[0] && b[0] == c[0] {
        lemma_seq_le_trans(a.drop_first(), b.drop_first(), c.drop_first());
    }
}

/// `a <= b` in the lexicographic order of `seq_le`.
pub fn chars_le(a: &Vec<char>, b: &Vec<char>) -> (r: bool)
    ensures
        r == seq_le(a@, b@),
{
    let mut i: usize = 0;
    while i < a.len() && i < b.len()
        invariant
            i <= a.len(),
            i <= b.len(),
            forall|j: int| 0 <= j < i ==> a@[j] == b@[j],
        decreases a.len() - i,
    {
        if a[i] != b[i] {
            proof {
                lemma_seq_le_step(a@, b@, i as int);
            }
            return a[i] < b[i];
        }
        i = i + 1;
    }
    proof {
        lemma_seq_le_step(a@, b@, i as int);
    }
    i == a.len()
}

// ---------------------------------------------------------------------------
// Whitespace and trimming
// ---------------------------------------------------------------------------

/// Unicode `White_Space`, the set that `char::is_whitespace` tests.
pub open spec fn is_ws(c: char) -> bool {
    let n = c as u32;
    ||| 0x09 <= n <= 0x0D
    ||| n == 0x20
    ||| n == 0x85
    ||| n == 0xA0
    ||| n == 0x1680
    ||| 0x2000 <= n <= 0x200A
    ||| n == 0x2028
    ||| n == 0x2029
    ||| n == 0x202F
    ||| n == 0x205F
    ||| n == 0x3000
}

/// Whether `c` is whitespace (`char::is_whitespace`).
pub fn is_whitespace(c: char) -> (r: bool)
    ensures
        r == is_ws(c),
{
    let n = c as u32;
    (0x09 <= n && n <= 0x0D) || n == 0x20 || n == 0x85 || n == 0xA0 || n == 0x1680 || (0x2000
        <= n && n <= 0x200A) || n == 0x2028 || n == 0x2029 || n == 0x202F || n == 0x205F || n
        == 0x3000
}

/// `s` without its leading whitespace.
pub open spec fn trim_start_seq(s: Seq<char>) -> Seq<char>
    decreases s.len(),
{
    if s.len() > 0 && is_ws(s[0]) {
        trim_start_seq(s.drop_first())
    } else {
        s
    }
}

/// `s` without its trailing whitespace.
pub open spec fn trim_end_seq(s: Seq<char>) -> Seq<char>
    decreases s.len(),
{
    if s.len() > 0 && is_ws(s.last()) {
        trim_end_seq(s.drop_last())
    } else {
        s
    }
}

/// `s` without leading and trailing whitespace (`str::trim`).
pub open spec fn trim_seq(s: Seq<char>) -> Seq<char> {
    trim_end_seq(trim_start_seq(s))
}

proof fn lemma_trim_start_at(s: Seq<char>, i: int)
    requires
        0 <= i <= s.len(),
        forall|j: int| 0 <= j < i ==> is_ws(s[j]),
        i < s.len() ==> !is_ws(s[i]),
    ensures
        trim_start_seq(s) == s.skip(i),
    decreases i,
{
    if i == 0 {
        assert(s.skip(0) =~= s);
    } else {
        lemma_trim_start_at(s.drop_first(), i - 1);
        assert(s.drop_first().skip(i - 1) =~= s.skip(i));
    }
}

proof fn lemma_trim_end_at(s: Seq<char>, k: int)
    requires
        0 <= k <= s.len(),
        forall|j: int| k <= j < s.len() ==> is_ws(s[j]),
        k > 0 ==> !is_ws(s[k - 1]),
    ensures
        trim_end_seq(s) == s.take(k),
    decreases s.len() - k,
{
    if k == s.len() {
        assert(s.take(k) =~= s);
    } else {
        lemma_trim_end_at(s.drop_last(), k);
        assert(s.drop_last().take(k) =~= s.take(k));
    }
}

/// The length of the run of non-whitespace characters that starts `s`.
pub open spec fn word_len(s: Seq<char>) -> nat
    decreases s.len(),
{
    if s.len() == 0 || is_ws(s[0]) {
        0
    } else {
        1 + word_len(s.drop_first())
    }
}

/// A run of non-whitespace at the start of `s` is no longer than `s`.
pub proof fn lemma_word_len_bound(s: Seq<char>)
    ensures
        word_len(s) <= s.len(),
    decreases s.len(),
{
    if s.len() > 0 && !is_ws(s[0]) {
        lemma_word_len_bound(s.drop_first());
    }
}

proof fn lemma_word_len_at(s: Seq<char>, k: int)
    requires
        0 <= k <= s.len(),
        forall|j: int| 0 <= j < k ==> !is_ws(#[trigger] s[j]),
        k < s.len() ==> is_ws(s[k]),
    ensures
        word_len(s) == k,
    decreases k,
{
    if k > 0 {
        assert forall|j: int| 0 <= j < k - 1 implies !is_ws(#[trigger] s.drop_first()[j]) by {
            assert(s.drop_first()[j] == s[j + 1]);
        }
        lemma_word_len_at(s.drop_first(), k - 1);
    }
}

/// The words of `s`: its maximal runs of non-whitespace characters, in
/// order (`str::split_whitespace`).
pub open spec fn words(s: Seq<char>) -> Seq<Seq<char>>
    decreases s.len(),
{
    if s.len() == 0 {
        seq![]
    } else if is_ws(s[0]) {
        words(s.drop_first())
    } else {
        proof {
            lemma_word_len_bound(s);
        }
        let n = word_len(s) as int;
        seq![s.take(n)] + words(s.skip(n))
    }
}

/// The words of `s` (`str::split_whitespace`), as owned strings.
pub fn split_words(s: &str) -> (r: Vec<String>)
    ensures
        r@.map_values(|w: String| w@) == words(s@),
{
    let v = chars_of(s);
    let mut r: Vec<String> = Vec::new();
    let mut pos: usize = 0;
    let ghost mut done: Seq<Seq<char>> = seq![];
    assert(v@.skip(0) =~= v@);
    while pos < v.len()
        invariant
            pos <= v.len(),
            v@ == s@,
            words(s@) == done + words(v@.skip(pos as int)),
            r@.map_values(|w: String| w@) == done,
        decreases v.len() - pos,
    {
        let ghost rest = v@.skip(pos as int);
        if is_whitespace(v[pos]) {
            assert(rest.drop_first() =~= v@.skip(pos as int + 1));
            pos = pos + 1;
        } else {
            let mut e: usize = pos + 1;
            while e < v.len() && !is_whitespace(v[e])
                invariant
                    pos < e <= v.len(),
                    forall|j: int| pos <= j < e ==> !is_ws(#[trigger] v@[j]),
                decreases v.len() - e,
            {
                e = e + 1;
            }
            proof {
                assert forall|j: int| 0 <= j < e - pos implies !is_ws(#[trigger] rest[j]) by {
                    assert(rest[j] == v@[pos + j]);
                }
                if e < v.len() {
                    assert(rest[e - pos] == v@[e as int]);
                }
                lemma_word_len_at(rest, e - pos);
                lemma_word_len_bound(rest);
                assert(rest.skip(e - pos) =~= v@.skip(e as int));
                assert(rest.take(e - pos) =~= v@.subrange(pos as int, e as int));
            }
            let w = string_of(&v, pos, e);
            r.push(w);
            proof {
                assert(done + (seq![rest.take(e - pos)] + words(rest.skip(e - pos))) =~= done.push(
                    rest.take(e - pos),
                ) + words(v@.skip(e as int)));
                done = done.push(rest.take(e - pos));
            }
            assert(r@.map_values(|w: String| w@) =~= done);
            pos = e;
        }
    }
    assert(v@.skip(pos as int) =~= Seq::<char>::empty());
    assert(done + Seq::<Seq<char>>::empty() =~= done);
    r
}

/// Index of the first non-whitespace character of `v[from..to]` (or `to`).
fn skip_ws(v: &Vec<char>, from: usize, to: usize) -> (i: usize)
    requires
        from <= to <= v.len(),
    ensures
        from <= i <= to,
        forall|j: int| from <= j < i ==> is_ws(v@[j]),
        i < to ==> !is_ws(v@[i as int]),
{
    let mut i = from;
    while i < to && is_whitespace(v[i])
        invariant
            from <= i <= to <= v.len(),
            forall|j: int| from <= j < i ==> is_ws(v@[j]),
        decreases to - i,
    {
        i = i + 1;
    }
    i
}

/// Start `a` such that `v[a..to]` is `trim_start_seq(v[from..to])`.
pub fn trim_start_bound(v: &Vec<char>, from: usize, to: usize) -> (a: usize)
    requires
        from <= to <= v.len(),
    ensures
        from <= a <= to,
        v@.subrange(a as int, to as int) == trim_start_seq(v@.subrange(from as int, to as int)),
{
    let ghost s = v@.subrange(from as int, to as int);
    let a = skip_ws(v, from, to);
    proof {
        lemma_trim_start_at(s, a - from);
        assert(s.skip(a - from) =~= v@.subrange(a as int, to as int));
    }
    a
}

/// Whether `v[at..end]` starts with `p`.
pub fn chars_match_range(v: &Vec<char>, at: usize, end: usize, p: &Vec<char>) -> (r: bool)
    requires
        at <= end <= v.len(),
    ensures
        r == has_prefix(v@.subrange(at as int, end as int), p@),
{
    if p.len() > end - at {
        return false;
    }
    let m = chars_match_at(v, at, p);
    assert(v@.skip(at as int).take(p.len() as int) =~= v@.subrange(at as int, end as int).take(p.len() as int));
    m
}

/// Bounds `(a, b)` such that `v[a..b]` is `trim_seq(v[from..to])`.
pub fn trim_bounds(v: &Vec<char>, from: usize, to: usize) -> (r: (usize, usize))
    requires
        from <= to <= v.len(),
    ensures
        from <= r.0 <= r.1 <= to,
        v@.subrange(r.0 as int, r.1 as int) == trim_seq(v@.subrange(from as int, to as int)),
{
    let ghost s = v@.subrange(from as int, to as int);
    let a = skip_ws(v, from, to);
    proof {
        lemma_trim_start_at(s, a - from);
        assert(s.skip(a - from) =~= v@.subrange(a as int, to as int));
    }
    let mut b = to;
    while b > a && is_whitespace(v[b - 1])
        invariant
            a <= b <= to <= v.len(),
            forall|j: int| b <= j < to ==> is_ws(v@[j]),
        decreases b,
    {
        b = b - 1;
    }
    proof {
        let t = v@.subrange(a as int, to as int);
        lemma_trim_end_at(t, b - a);
        assert(t.take(b - a) =~= v@.subrange(a as int, b as int));
    }
    (a, b)
}

/// `str::trim`, as an owned string.
pub fn trim(s: &str) -> (r: String)
    ensures
        r@ == trim_seq(s@),
{
    let v = chars_of(s);
    let (a, b) = trim_bounds(&v, 0, v.len());
    assert(v@.subrange(0, v@.len() as int) == v@);
    string_of(&v, a, b)
}

/// Whether `str::trim` of `s` is empty.
pub fn is_blank(s: &str) -> (r: bool)
    ensures
        r == (trim_seq(s@).len() == 0),
{
    let v = chars_of(s);
    let (a, b) = trim_bounds(&v, 0, v.len());
    assert(v@.subrange(0, v@.len() as int) == v@);
    a == b
}

// ---------------------------------------------------------------------------
// Decimal numbers
// ---------------------------------------------------------------------------

/// The decimal digit character for `d < 10`.
pub open spec fn digit_char(d: nat) -> char {
    if d == 0 { '0' }
    else if d == 1 { '1' }
    else if d == 2 { '2' }
    else if d == 3 { '3' }
    else if d == 4 { '4' }
    else if d == 5 { '5' }
    else if d == 6 { '6' }
    else if d == 7 { '7' }
    else if d == 8 { '8' }
    else { '9' }
}

/// The decimal representation of `n`, without leading zeros (`n.to_string()`).
pub open spec fn decimal(n: nat) -> Seq<char>
    decreases n,
{
    if n < 10 {
        seq![digit_char(n)]
    } else {
        decimal(n / 10).push(digit_char(n % 10))
    }
}

fn digit_to_char(d: u64) -> (c: char)
    requires
        d < 10,
    ensures
        c == digit_char(d as nat),
{
    if d == 0 { '0' }
    else if d == 1 { '1' }
    else if d == 2 { '2' }
    else if d == 3 { '3' }
    else if d == 4 { '4' }
    else if d == 5 { '5' }
    else if d == 6 { '6' }
    else if d == 7 { '7' }
    else if d == 8 { '8' }
    else { '9' }
}

/// Appends the decimal representation of `n` to `out`.
pub fn push_decimal(out: &mut String, n: u64)
    ensures
        final(out)@ == old(out)@ + decimal(n as nat),
    decreases n,
{
    if n >= 10 {
        push_decimal(out, n / 10);
    }
    push_char(out, digit_to_char(n % 10));
}

/// Whether `c` is an ASCII decimal digit.
pub open spec fn is_digit(c: char) -> bool {
    '0' <= c <= '9'
}

/// The value of a digit character.
pub open spec fn digit_value(c: char) -> nat {
    ((c as u32) - ('0' as u32)) as nat
}

/// The value of a sequence of decimal digits (most significant first).
pub open spec fn digits_value(s: Seq<char>) -> nat
    decreases s.len(),
{
    if s.len() == 0 {
        0
    } else {
        digits_value(s.drop_last()) * 10 + digit_value(s.last())
    }
}

/// The digits that `u64::from_str` reads: `s` without one leading `+`.
pub open spec fn unsigned_digits(s: Seq<char>) -> Seq<char> {
    if s.len() > 0 && s[0] == '+' {
        s.drop_first()
    } else {
        s
    }
}

/// What `<u64 / u32 as FromStr>::from_str` returns for `s`, with `max` the
/// type's largest value: the value of the digits, or `None` where there are
/// no digits, a character that is not a digit, or a value above `max`.
pub open spec fn parse_unsigned(s: Seq<char>, max: nat) -> Option<nat> {
    let d = unsigned_digits(s);
    if d.len() == 0 {
        None
    } else if exists|i: int| 0 <= i < d.len() && !is_digit(#[trigger] d[i]) {
        None
    } else if digits_value(d) > max {
        None
    } else {
        Some(digits_value(d))
    }
}

proof fn lemma_digits_value_monotone(s: Seq<char>, k: int)
    requires
        0 <= k <= s.len(),
        forall|i: int| 0 <= i < s.len() ==> is_digit(#[trigger] s[i]),
    ensures
        digits_value(s.take(k)) <= digits_value(s),
    decreases s.len() - k,
{
    if k < s.len() {
        lemma_digits_value_monotone(s.drop_last(), k);
        assert(s.drop_last().take(k) =~= s.take(k));
    } else {
        assert(s.take(k) =~= s);
    }
}

/// `<u64 as FromStr>::from_str` on `v[from..to]`, as an `Option`.
pub fn parse_u64_chars(v: &Vec<char>, from: usize, to: usize) -> (r: Option<u64>)
    requires
        from <= to <= v.len(),
    ensures
        match parse_unsigned(v@.subrange(from as int, to as int), u64::MAX as nat) {
            Some(n) => r == Some(n as u64),
            None => r is None,
        },
{
    let ghost s = v@.subrange(from as int, to as int);
    let mut start = from;
    if start < to && v[start] == '+' {
        start = start + 1;
    }
    let ghost d = v@.subrange(start as int, to as int);
    assert(d =~= unsigned_digits(s));
    if start == to {
        return None;
    }
    let mut acc: u64 = 0;
    let mut i = start;
    while i < to
        invariant
            from <= start <= i <= to <= v.len(),
            d == v@.subrange(start as int, to as int),
            d == unsigned_digits(s),
            s == v@.subrange(from as int, to as int),
            forall|j: int| start <= j < i ==> is_digit(v@[j]),
            acc as nat == digits_value(d.take(i - start)),
        decreases to - i,
    {
        let c = v[i];
        if !('0' <= c && c <= '9') {
            assert(!is_digit(d[i - start]));
            assert(parse_unsigned(s, u64::MAX as nat) is None);
            return None;
        }
        let dv = (c as u32 - '0' as u32) as u64;
        assert(d.take(i - start + 1).drop_last() =~= d.take(i - start));
        if acc > (u64::MAX - dv) / 10 {
            proof {
                if forall|j: int| 0 <= j < d.len() ==> is_digit(#[trigger] d[j]) {
                    lemma_digits_value_monotone(d, i - start + 1);
                    assert(digits_value(d.take(i - start + 1)) == acc * 10 + dv);
                }
                assert(parse_unsigned(s, u64::MAX as nat) is None);
            }
            return None;
        }
        acc = acc * 10 + dv;
        i = i + 1;
    }
    assert(d.take(i - start) =~= d);
    Some(acc)
}

/// `<u32 as FromStr>::from_str` on `v[from..to]`, as an `Option`.
pub fn parse_u32_chars(v: &Vec<char>, from: usize, to: usize) -> (r: Option<u32>)
    requires
        from <= to <= v.len(),
    ensures
        match parse_unsigned(v@.subrange(from as int, to as int), u32::MAX as nat) {
            Some(n) => r == Some(n as u32),
            None => r is None,
        },
{
    match parse_u64_chars(v, from, to) {
        Some(n) => {
            if n <= u32::MAX as u64 {
                Some(n as u32)
            } else {
                None
            }
        },
        None => None,
    }
}

// ---------------------------------------------------------------------------
// Searching and splitting
// ---------------------------------------------------------------------------

/// Index of the first `c` in `s`, or `s.len()` where there is none.
pub open spec fn idx_of(s: Seq<char>, c: char) -> nat
    decreases s.len(),
{
    if s.len() == 0 {
        0
    } else if s[0] == c {
        0
    } else {
        1 + idx_of(s.drop_first(), c)
    }
}

/// `idx_of` is the index characterised by "no `c` before it, `c` at it or end".
pub proof fn lemma_idx_of(s: Seq<char>, c: char, i: int)
    requires
        0 <= i <= s.len(),
        forall|j: int| 0 <= j < i ==> s[j] != c,
        i < s.len() ==> s[i] == c,
    ensures
        idx_of(s, c) == i,
    decreases i,
{
    if i > 0 {
        lemma_idx_of(s.drop_first(), c, i - 1);
    }
}

/// `idx_of` never exceeds the length.
pub proof fn lemma_idx_of_bound(s: Seq<char>, c: char)
    ensures
        idx_of(s, c) <= s.len(),
        idx_of(s, c) < s.len() ==> s[idx_of(s, c) as int] == c,
        forall|j: int| 0 <= j < idx_of(s, c) ==> s[j] != c,
    decreases s.len(),
{
    if s.len() > 0 && s[0] != c {
        lemma_idx_of_bound(s.drop_first(), c);
        assert forall|j: int| 0 <= j < idx_of(s, c) implies s[j] != c by {
            if j > 0 {
                assert(s[j] == s.drop_first()[j - 1]);
            }
        }
    }
}

/// Index of the first `c` in `v[from..to]` (or `to`).
pub fn find_char(v: &Vec<char>, from: usize, to: usize, c: char) -> (i: usize)
    requires
        from <= to <= v.len(),
    ensures
        from <= i <= to,
        i - from == idx_of(v@.subrange(from as int, to as int), c),
        forall|j: int| from <= j < i ==> v@[j] != c,
        i < to ==> v@[i as int] == c,
{
    let mut i = from;
    while i < to && v[i] != c
        invariant
            from <= i <= to <= v.len(),
            forall|j: int| from <= j < i ==> v@[j] != c,
        decreases to - i,
    {
        i = i + 1;
    }
    proof {
        lemma_idx_of(v@.subrange(from as int, to as int), c, i - from);
    }
    i
}

/// The non-empty pieces of `s` between `sep` characters, in order
/// (`s.split(sep).filter(|p| !p.is_empty())`).
pub open spec fn nonempty_pieces(s: Seq<char>, sep: char) -> Seq<Seq<char>>
    decreases s.len(),
{
    if s.len() == 0 {
        seq![]
    } else {
        let i = idx_of(s, sep);
        let head = s.take(i as int);
        let rest = if i < s.len() {
            nonempty_pieces(s.skip(i as int + 1), sep)
        } else {
            seq![]
        };
        if head.len() == 0 {
            rest
        } else {
            seq![head] + rest
        }
    }
}

/// Bounds of the non-empty pieces of `v` between `sep` characters.
pub fn nonempty_piece_bounds(v: &Vec<char>, sep: char) -> (r: Vec<(usize, usize)>)
    ensures
        r@.len() == nonempty_pieces(v@, sep).len(),
        forall|k: int|
            0 <= k < r@.len() ==> {
                &&& (#[trigger] r@[k]).0 <= r@[k].1 <= v.len()
                &&& v@.subrange(r@[k].0 as int, r@[k].1 as int) == nonempty_pieces(v@, sep)[k]
            },
{
    let mut r: Vec<(usize, usize)> = Vec::new();
    let mut pos: usize = 0;
    let ghost whole = nonempty_pieces(v@, sep);
    let ghost mut done: Seq<Seq<char>> = seq![];
    assert(v@.skip(0) =~= v@);
    while pos < v.len()
        invariant
            pos <= v.len(),
            whole == nonempty_pieces(v@, sep),
            whole == done + nonempty_pieces(v@.skip(pos as int), sep),
            done.len() == r@.len(),
            forall|k: int|
                0 <= k < r@.len() ==> {
                    &&& (#[trigger] r@[k]).0 <= r@[k].1 <= v.len()
                    &&& v@.subrange(r@[k].0 as int, r@[k].1 as int) == done[k]
                },
        decreases v.len() - pos,
    {
        let ghost rest = v@.skip(pos as int);
        let i = find_char(v, pos, v.len(), sep);
        assert(rest =~= v@.subrange(pos as int, v.len() as int));
        let ghost head = rest.take(i - pos);
        assert(head =~= v@.subrange(pos as int, i as int));
        let ghost tail = if i < v.len() {
            nonempty_pieces(rest.skip(i - pos + 1), sep)
        } else {
            seq![]
        };
        assert(nonempty_pieces(rest, sep) == if head.len() == 0 {
            tail
        } else {
            seq![head] + tail
        });
        if i > pos {
            r.push((pos, i));
            proof {
                assert(done + (seq![head] + tail) =~= done.push(head) + tail);
                done = done.push(head);
            }
        }
        if i < v.len() {
            assert(rest.skip(i - pos + 1) =~= v@.skip(i + 1));
            pos = i + 1;
        } else {
            assert(v@.skip(v.len() as int) =~= Seq::<char>::empty());
            assert(tail =~= nonempty_pieces(v@.skip(v.len() as int), sep));
            pos = v.len();
        }
    }
    assert(v@.skip(pos as int) =~= Seq::<char>::empty());
    assert(whole =~= done);
    r
}

/// Splitting `a`, a separator, then `b` gives the pieces of `a` then those of `b`.
pub proof fn lemma_pieces_concat(a: Seq<char>, sep: char, b: Seq<char>)
    ensures
        nonempty_pieces(a + seq![sep] + b, sep) == nonempty_pieces(a, sep) + nonempty_pieces(b, sep),
    decreases a.len(),
{
    let s = a + seq![sep] + b;
    lemma_idx_of_bound(a, sep);
    let ia = idx_of(a, sep) as int;
    if a.len() == 0 {
        lemma_idx_of(s, sep, 0);
        assert(s.skip(1) =~= b);
        assert(nonempty_pieces(a, sep) =~= Seq::<Seq<char>>::empty());
        assert(nonempty_pieces(a, sep) + nonempty_pieces(b, sep) =~= nonempty_pieces(b, sep));
    } else if ia < a.len() {
        lemma_idx_of(s, sep, ia);
        assert(s.take(ia) =~= a.take(ia));
        assert(s.skip(ia + 1) =~= a.skip(ia + 1) + seq![sep] + b);
        lemma_pieces_concat(a.skip(ia + 1), sep, b);
        let head = a.take(ia);
        if head.len() == 0 {
        } else {
            assert(seq![head] + (nonempty_pieces(a.skip(ia + 1), sep) + nonempty_pieces(b, sep)) =~= (seq![head]
                + nonempty_pieces(a.skip(ia + 1), sep)) + nonempty_pieces(b, sep));
        }
    } else {
        lemma_idx_of(s, sep, a.len() as int);
        assert(s.take(a.len() as int) =~= a);
        assert(a.take(ia) =~= a);
        assert(s.skip(a.len() as int + 1) =~= b);
        assert(nonempty_pieces(a, sep) =~= seq![a]);
    }
}

/// A non-empty string without the separator is one piece.
pub proof fn lemma_pieces_single(a: Seq<char>, sep: char)
    requires
        a.len() > 0,
        !a.contains(sep),
    ensures
        nonempty_pieces(a, sep) == seq![a],
{
    lemma_idx_of(a, sep, a.len() as int);
    assert(a.take(a.len() as int) =~= a);
}

// ---------------------------------------------------------------------------
// Paths and last segments
// ---------------------------------------------------------------------------

/// `base` with `p` pushed on, as `PathBuf::push` does on Unix: an absolute
/// `p` replaces `base`; otherwise a `/` goes between them unless `base` is
/// empty or already ends with one.
pub open spec fn path_join(base: Seq<char>, p: Seq<char>) -> Seq<char> {
    if p.len() > 0 && p[0] == '/' {
        p
    } else if base.len() == 0 || base.last() == '/' {
        base + p
    } else {
        base + seq!['/'] + p
    }
}

/// `PathBuf::push` on Unix, on strings.
pub fn join_path(base: &str, p: &str) -> (r: String)
    ensures
        r@ == path_join(base@, p@),
{
    let pv = chars_of(p);
    if pv.len() > 0 && pv[0] == '/' {
        return owned(p);
    }
    let bv = chars_of(base);
    let mut r = owned(base);
    if !(bv.len() == 0 || bv[bv.len() - 1] == '/') {
        push_char(&mut r, '/');
    }
    push_str(&mut r, p);
    r
}

/// What follows the last `c` in `s` (all of `s` where there is none): the
/// first item of `s.rsplit(c)`.
pub open spec fn after_last(s: Seq<char>, c: char) -> Seq<char>
    decreases s.len(),
{
    if s.len() == 0 {
        s
    } else if s.last() == c {
        seq![]
    } else {
        after_last(s.drop_last(), c).push(s.last())
    }
}

proof fn lemma_after_last_at(s: Seq<char>, c: char, k: int)
    requires
        0 <= k <= s.len(),
        forall|j: int| k <= j < s.len() ==> s[j] != c,
        k > 0 ==> s[k - 1] == c,
    ensures
        after_last(s, c) == s.skip(k),
    decreases s.len() - k,
{
    if k == s.len() {
        if s.len() > 0 {
            assert(s.skip(k) =~= Seq::<char>::empty());
        } else {
            assert(s.skip(k) =~= s);
        }
    } else {
        lemma_after_last_at(s.drop_last(), c, k);
        assert(s.drop_last().skip(k).push(s.last()) =~= s.skip(k));
    }
}

/// Index where `after_last(v, c)` starts.
pub fn after_last_start(v: &Vec<char>, c: char) -> (k: usize)
    ensures
        k <= v.len(),
        after_last(v@, c) == v@.skip(k as int),
{
    let mut k = v.len();
    while k > 0 && v[k - 1] != c
        invariant
            k <= v.len(),
            forall|j: int| k <= j < v.len() ==> v@[j] != c,
        decreases k,
    {
        k = k - 1;
    }
    proof {
        lemma_after_last_at(v@, c, k as int);
    }
    k
}

// ---------------------------------------------------------------------------
// Joining
// ---------------------------------------------------------------------------

/// The items with `sep` between each two (`[..].join(sep)`).
pub open spec fn join_seq(items: Seq<Seq<char>>, sep: Seq<char>) -> Seq<char>
    decreases items.len(),
{
    if items.len() == 0 {
        seq![]
    } else if items.len() == 1 {
        items[0]
    } else {
        join_seq(items.drop_last(), sep) + sep + items.last()
    }
}

/// The strings of `items` joined by `sep`.
pub fn join_strings(items: &Vec<String>, sep: &str) -> (r: String)
    ensures
        r@ == join_seq(items@.map_values(|s: String| s@), sep@),
{
    let ghost views = items@.map_values(|s: String| s@);
    let mut r = String::new();
    let mut i: usize = 0;
    while i < items.len()
        invariant
            i <= items.len(),
            views == items@.map_values(|s: String| s@),
            r@ == join_seq(views.take(i as int), sep@),
        decreases items.len() - i,
    {
        assert(views.take(i + 1).drop_last() =~= views.take(i as int));
        assert(views.take(i + 1).last() == items@[i as int]@);
        if i > 0 {
            push_str(&mut r, sep);
        } else {
            assert(views.take(0) =~= Seq::<Seq<char>>::empty());
        }
        push_str(&mut r, items[i].as_str());
        i = i + 1;
    }
    assert(views.take(i as int) =~= views);
    r
}

// ---------------------------------------------------------------------------
// Lines and repeated trimming
// ---------------------------------------------------------------------------

/// The lines of `s` (`str::lines`): split at `\n`, a `\r` before the `\n`
/// dropped, and no empty last line after a final `\n`.
pub open spec fn lines_of(s: Seq<char>) -> Seq<Seq<char>>
    decreases s.len(),
{
    if s.len() == 0 {
        seq![]
    } else {
        let i = idx_of(s, '\n');
        let line = if i < s.len() && i > 0 && s[i - 1] == '\r' {
            s.take(i - 1)
        } else {
            s.take(i as int)
        };
        let rest = if i < s.len() {
            lines_of(s.skip(i as int + 1))
        } else {
            seq![]
        };
        seq![line] + rest
    }
}

/// Bounds of the lines of `v`.
pub fn line_bounds(v: &Vec<char>) -> (r: Vec<(usize, usize)>)
    ensures
        r@.len() == lines_of(v@).len(),
        forall|k: int|
            0 <= k < r@.len() ==> {
                &&& (#[trigger] r@[k]).0 <= r@[k].1 <= v.len()
                &&& v@.subrange(r@[k].0 as int, r@[k].1 as int) == lines_of(v@)[k]
            },
{
    let mut r: Vec<(usize, usize)> = Vec::new();
    let mut pos: usize = 0;
    let ghost whole = lines_of(v@);
    let ghost mut done: Seq<Seq<char>> = seq![];
    assert(v@.skip(0) =~= v@);
    while pos < v.len()
        invariant
            pos <= v.len(),
            whole == lines_of(v@),
            whole == done + lines_of(v@.skip(pos as int)),
            done.len() == r@.len(),
            forall|k: int|
                0 <= k < r@.len() ==> {
                    &&& (#[trigger] r@[k]).0 <= r@[k].1 <= v.len()
                    &&& v@.subrange(r@[k].0 as int, r@[k].1 as int) == done[k]
                },
        decreases v.len() - pos,
    {
        let ghost rest = v@.skip(pos as int);
        let i = find_char(v, pos, v.len(), '\n');
        assert(rest =~= v@.subrange(pos as int, v.len() as int));
        let end = if i < v.len() && i > pos && v[i - 1] == '\r' {
            i - 1
        } else {
            i
        };
        let ghost line = v@.subrange(pos as int, end as int);
        let ghost tail = if i < v.len() {
            lines_of(rest.skip(i - pos + 1))
        } else {
            seq![]
        };
        assert(line =~= (if i < v.len() && i > pos && v@[i - 1] == '\r' {
            rest.take(i - pos - 1)
        } else {
            rest.take(i - pos)
        }));
        assert(lines_of(rest) == seq![line] + tail);
        r.push((pos, end));
        proof {
            assert(done + (seq![line] + tail) =~= done.push(line) + tail);
            done = done.push(line);
        }
        if i < v.len() {
            assert(rest.skip(i - pos + 1) =~= v@.skip(i + 1));
            pos = i + 1;
        } else {
            assert(v@.skip(v.len() as int) =~= Seq::<char>::empty());
            assert(tail =~= lines_of(v@.skip(v.len() as int)));
            pos = v.len();
        }
    }
    assert(v@.skip(pos as int) =~= Seq::<char>::empty());
    assert(whole =~= done);
    r
}

/// `s` without every leading `c` (`trim_start_matches(c)`).
pub open spec fn strip_leading(s: Seq<char>, c: char) -> Seq<char>
    decreases s.len(),
{
    if s.len() > 0 && s[0] == c {
        strip_leading(s.drop_first(), c)
    } else {
        s
    }
}

proof fn lemma_strip_leading_at(s: Seq<char>, c: char, i: int)
    requires
        0 <= i <= s.len(),
        forall|j: int| 0 <= j < i ==> s[j] == c,
        i < s.len() ==> s[i] != c,
    ensures
        strip_leading(s, c) == s.skip(i),
    decreases i,
{
    if i == 0 {
        assert(s.skip(0) =~= s);
    } else {
        lemma_strip_leading_at(s.drop_first(), c, i - 1);
        assert(s.drop_first().skip(i - 1) =~= s.skip(i));
    }
}

/// Start of `strip_leading(v[from..to], c)`.
pub fn strip_leading_start(v: &Vec<char>, from: usize, to: usize, c: char) -> (i: usize)
    requires
        from <= to <= v.len(),
    ensures
        from <= i <= to,
        v@.subrange(i as int, to as int) == strip_leading(v@.subrange(from as int, to as int), c),
{
    let mut i = from;
    while i < to && v[i] == c
        invariant
            from <= i <= to <= v.len(),
            forall|j: int| from <= j < i ==> v@[j] == c,
        decreases to - i,
    {
        i = i + 1;
    }
    proof {
        let s = v@.subrange(from as int, to as int);
        lemma_strip_leading_at(s, c, i - from);
        assert(s.skip(i - from) =~= v@.subrange(i as int, to as int));
    }
    i
}

/// `s` without every trailing occurrence of `p` (`trim_end_matches(p)`).
pub open spec fn strip_trailing(s: Seq<char>, p: Seq<char>) -> Seq<char>
    decreases s.len(),
{
    if p.len() > 0 && has_suffix(s, p) {
        strip_trailing(s.take(s.len() - p.len()), p)
    } else {
        s
    }
}

/// End of `strip_trailing(v[from..to], p)`.
pub fn strip_trailing_end(v: &Vec<char>, from: usize, to: usize, p: &Vec<char>) -> (e: usize)
    requires
        from <= to <= v.len(),
    ensures
        from <= e <= to,
        v@.subrange(from as int, e as int) == strip_trailing(v@.subrange(from as int, to as int), p@),
{
    let mut e = to;
    if p.len() == 0 {
        return e;
    }
    loop
        invariant
            from <= e <= to <= v.len(),
            p.len() > 0,
            strip_trailing(v@.subrange(from as int, e as int), p@) == strip_trailing(
                v@.subrange(from as int, to as int),
                p@,
            ),
        decreases e,
    {
        let ghost s = v@.subrange(from as int, e as int);
        if e - from < p.len() {
            assert(!has_suffix(s, p@));
            return e;
        }
        let start = e - p.len();
        let m = chars_match_at(v, start, p);
        assert(v@.skip(start as int).take(p.len() as int) =~= s.skip(s.len() - p.len()));
        if !m {
            return e;
        }
        assert(s.take(s.len() - p.len()) =~= v@.subrange(from as int, start as int));
        e = start;
    }
}

} // verus!
