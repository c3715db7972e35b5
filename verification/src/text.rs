//! Text as sequences of characters: the sets of characters that are stripped
//! from the ends of a text, and the conversions between `str`, `String` and
//! slices of `char`.
use vstd::prelude::*;

verus! {

/// Whether `c` is white space: a character with the Unicode property `White_Space`.
pub open spec fn is_space(c: char) -> bool {
    let n = c as u32;
    ||| 0x09 <= n <= 0x0D
    ||| n == 0x20
    ||| n == 0x85
    ||| n == 0xA0
    ||| n == 0x1680
    ||| 0x2000 <= n <= 0x200A
    ||| n == 0x2028
    ||| n == 0x2029
    ||| n == 0x202F
    ||| n == 0x205F
    ||| n == 0x3000
}

/// A set of characters to strip from the ends of a text.
#[derive(Clone, Copy, Debug)]
pub enum CharSet {
    /// All white space.
    Whitespace,
    /// One character.
    Just(char),
}

impl CharSet {
    /// Whether `c` belongs to the set.
    pub open spec fn has(self, c: char) -> bool {
        match self {
            CharSet::Whitespace => is_space(c),
            CharSet::Just(q) => c == q,
        }
    }

    /// Tests whether `c` belongs to the set.
    pub fn test(self, c: char) -> (r: bool)
        ensures
            r == self.has(c),
    {
        match self {
            CharSet::Whitespace => {
                let n: u32 = c as u32;
                (0x09 <= n && n <= 0x0D) || n == 0x20 || n == 0x85 || n == 0xA0 || n == 0x1680
                    || (0x2000 <= n && n <= 0x200A) || n == 0x2028 || n == 0x2029 || n == 0x202F
                    || n == 0x205F || n == 0x3000
            },
            CharSet::Just(q) => c == q,
        }
    }
}

/// `s` without its longest prefix of characters of `set`.
pub open spec fn strip_start(s: Seq<char>, set: CharSet) -> Seq<char>
    decreases s.len(),
{
    if s.len() > 0 && set.has(s.first()) {
        strip_start(s.drop_first(), set)
    } else {
        s
    }
}

/// `s` without its longest suffix of characters of `set`.
pub open spec fn strip_end(s: Seq<char>, set: CharSet) -> Seq<char>
    decreases s.len(),
{
    if s.len() > 0 && set.has(s.last()) {
        strip_end(s.drop_last(), set)
    } else {
        s
    }
}

/// `s` without the characters of `set` at its two ends.
pub open spec fn strip(s: Seq<char>, set: CharSet) -> Seq<char> {
    strip_end(strip_start(s, set), set)
}

/// `s` without the white space at its two ends.
pub open spec fn trim(s: Seq<char>) -> Seq<char> {
    strip(s, CharSet::Whitespace)
}

/// `s` without the double quotes at its two ends and then without the single
/// quotes at its two ends, however many there are of each.
pub open spec fn unquote(s: Seq<char>) -> Seq<char> {
    strip(strip(s, CharSet::Just('"')), CharSet::Just('\''))
}

/// Where stripping at the start stops: at the first character of `s` that is
/// not of `set`, or at the end of `s`.
pub proof fn lemma_strip_start(s: Seq<char>, set: CharSet) -> (k: int)
    ensures
        0 <= k <= s.len(),
        strip_start(s, set) == s.subrange(k, s.len() as int),
        forall|i: int| 0 <= i < k ==> set.has(#[trigger] s[i]),
        k < s.len() ==> !set.has(s[k]),
    decreases s.len(),
{
    if s.len() > 0 && set.has(s.first()) {
        let rest = s.drop_first();
        let j = lemma_strip_start(rest, set);
        assert(rest.subrange(j, rest.len() as int) =~= s.subrange(j + 1, s.len() as int));
        assert forall|i: int| 0 <= i < j + 1 implies set.has(#[trigger] s[i]) by {
            if i > 0 {
                assert(s[i] == rest[i - 1]);
            }
        }
        j + 1
    } else {
        assert(s.subrange(0, s.len() as int) =~= s);
        0
    }
}

/// Where stripping at the end stops: behind the last character of `s` that
/// is not of `set`, or at the start of `s`.
pub proof fn lemma_strip_end(s: Seq<char>, set: CharSet) -> (k: int)
    ensures
        0 <= k <= s.len(),
        strip_end(s, set) == s.subrange(0, k),
        forall|i: int| k <= i < s.len() ==> set.has(#[trigger] s[i]),
        k > 0 ==> !set.has(s[k - 1]),
    decreases s.len(),
{
    if s.len() > 0 && set.has(s.last()) {
        let rest = s.drop_last();
        let j = lemma_strip_end(rest, set);
        assert(rest.subrange(0, j) =~= s.subrange(0, j));
        assert forall|i: int| j <= i < s.len() implies set.has(#[trigger] s[i]) by {
            if i < rest.len() {
                assert(s[i] == rest[i]);
            }
        }
        if j > 0 {
            assert(s[j - 1] == rest[j - 1]);
        }
        j
    } else {
        assert(s.subrange(0, s.len() as int) =~= s);
        s.len() as int
    }
}

/// What is left of a text after stripping is a part of it, at whose two ends
/// no character of `set` stands, and all that was taken away is of `set`.
pub proof fn lemma_strip(s: Seq<char>, set: CharSet) -> (b: (int, int))
    ensures
        0 <= b.0 <= b.1 <= s.len(),
        strip(s, set) == s.subrange(b.0, b.1),
        b.0 < b.1 ==> !set.has(s[b.0]) && !set.has(s[b.1 - 1]),
        forall|i: int| 0 <= i < b.0 || b.1 <= i < s.len() ==> set.has(#[trigger] s[i]),
{
    let lo = lemma_strip_start(s, set);
    let front = s.subrange(lo, s.len() as int);
    let k = lemma_strip_end(front, set);
    assert(front.subrange(0, k) =~= s.subrange(lo, lo + k));
    if k > 0 {
        assert(front[k - 1] == s[lo + k - 1]);
        assert(front[0] == s[lo]);
    }
    assert forall|i: int| 0 <= i < lo || lo + k <= i < s.len() implies set.has(
        #[trigger] s[i],
    ) by {
        if i >= lo + k {
            assert(s[i] == front[i - lo]);
        }
    }
    (lo, lo + k)
}

/// Stripping only ever shortens a text.
pub proof fn lemma_strip_len(s: Seq<char>, set: CharSet)
    ensures
        strip(s, set).len() <= s.len(),
{
    lemma_strip(s, set);
}

/// A text at whose two ends no character of `set` stands is left as it is.
pub proof fn lemma_strip_fixed(s: Seq<char>, set: CharSet)
    requires
        s.len() > 0 ==> !set.has(s.first()) && !set.has(s.last()),
    ensures
        strip(s, set) == s,
{
}

/// Stripping twice is stripping once.
pub proof fn lemma_strip_twice(s: Seq<char>, set: CharSet)
    ensures
        strip(strip(s, set), set) == strip(s, set),
{
    let b = lemma_strip(s, set);
    lemma_strip_fixed(strip(s, set), set);
}

/// Whether every character of `s` is of `set`.
pub open spec fn all_of(s: Seq<char>, set: CharSet) -> bool {
    forall|i: int| 0 <= i < s.len() ==> set.has(#[trigger] s[i])
}

/// Characters of `set` in front of a text are stripped with those of the text.
pub proof fn lemma_strip_start_skips(p: Seq<char>, r: Seq<char>, set: CharSet)
    requires
        all_of(p, set),
    ensures
        strip_start(p + r, set) == strip_start(r, set),
    decreases p.len(),
{
    if p.len() == 0 {
        assert(p + r =~= r);
    } else {
        assert(set.has(p[0]));
        assert((p + r).first() == p[0]);
        assert((p + r).drop_first() =~= p.drop_first() + r);
        assert forall|i: int| 0 <= i < p.drop_first().len() implies set.has(
            #[trigger] p.drop_first()[i],
        ) by {
            assert(p.drop_first()[i] == p[i + 1]);
        }
        lemma_strip_start_skips(p.drop_first(), r, set);
    }
}

/// Characters of `set` behind a text are stripped with those of the text.
pub proof fn lemma_strip_end_skips(l: Seq<char>, q: Seq<char>, set: CharSet)
    requires
        all_of(q, set),
    ensures
        strip_end(l + q, set) == strip_end(l, set),
    decreases q.len(),
{
    if q.len() == 0 {
        assert(l + q =~= l);
    } else {
        assert(set.has(q[q.len() - 1]));
        assert((l + q).last() == q.last());
        assert((l + q).drop_last() =~= l + q.drop_last());
        assert forall|i: int| 0 <= i < q.drop_last().len() implies set.has(
            #[trigger] q.drop_last()[i],
        ) by {
            assert(q.drop_last()[i] == q[i]);
        }
        lemma_strip_end_skips(l, q.drop_last(), set);
    }
}

/// A text at whose ends no character of `set` stands is what is left when
/// characters of `set` are put around it and the whole is stripped.
pub proof fn lemma_strip_padded(p: Seq<char>, m: Seq<char>, q: Seq<char>, set: CharSet)
    requires
        all_of(p, set),
        all_of(q, set),
        m.len() > 0 ==> !set.has(m.first()) && !set.has(m.last()),
    ensures
        strip(p + m + q, set) == m,
{
    assert(p + m + q =~= p + (m + q));
    lemma_strip_start_skips(p, m + q, set);
    if m.len() > 0 {
        assert((m + q).first() == m.first());
        lemma_strip_end_skips(m, q, set);
    } else {
        assert(m + q =~= q + m);
        lemma_strip_start_skips(q, m, set);
    }
}

/// Characters of `set` around a text change nothing in what stripping leaves
/// of it.
pub proof fn lemma_strip_absorbs(p: Seq<char>, s: Seq<char>, q: Seq<char>, set: CharSet)
    requires
        all_of(p, set),
        all_of(q, set),
    ensures
        strip(p + s + q, set) == strip(s, set),
{
    let b = lemma_strip(s, set);
    let before = s.subrange(0, b.0);
    let after = s.subrange(b.1, s.len() as int);
    let m = strip(s, set);
    assert(p + s + q =~= (p + before) + m + (after + q));
    assert forall|i: int| 0 <= i < (p + before).len() implies set.has(
        #[trigger] (p + before)[i],
    ) by {
        if i >= p.len() {
            assert((p + before)[i] == s[i - p.len()]);
        } else {
            assert((p + before)[i] == p[i]);
        }
    }
    assert forall|i: int| 0 <= i < (after + q).len() implies set.has(
        #[trigger] (after + q)[i],
    ) by {
        if i < after.len() {
            assert((after + q)[i] == s[b.1 + i]);
        } else {
            assert((after + q)[i] == q[i - after.len()]);
        }
    }
    if m.len() > 0 {
        assert(m.first() == s[b.0]);
        assert(m.last() == s[b.1 - 1]);
    }
    lemma_strip_padded(p + before, m, after + q, set);
}

/// Stripping at the start stops before a text that begins with a character
/// that is not of `set`.
pub proof fn lemma_strip_start_concat(a: Seq<char>, r: Seq<char>, set: CharSet)
    requires
        r.len() > 0,
        !set.has(r.first()),
    ensures
        strip_start(a + r, set) == strip_start(a, set) + r,
{
    let k = lemma_strip_start(a, set);
    let p = a.subrange(0, k);
    let rest = a.subrange(k, a.len() as int);
    assert(a + r =~= p + (rest + r));
    assert forall|i: int| 0 <= i < p.len() implies set.has(#[trigger] p[i]) by {
        assert(p[i] == a[i]);
    }
    lemma_strip_start_skips(p, rest + r, set);
    if rest.len() > 0 {
        assert((rest + r).first() == a[k]);
    } else {
        assert((rest + r).first() == r.first());
    }
}

/// Stripping at the end stops behind a text that ends with a character that
/// is not of `set`.
pub proof fn lemma_strip_end_concat(l: Seq<char>, b: Seq<char>, set: CharSet)
    requires
        l.len() > 0,
        !set.has(l.last()),
    ensures
        strip_end(l + b, set) == l + strip_end(b, set),
{
    let k = lemma_strip_end(b, set);
    let kept = b.subrange(0, k);
    let q = b.subrange(k, b.len() as int);
    assert(l + b =~= (l + kept) + q);
    assert forall|i: int| 0 <= i < q.len() implies set.has(#[trigger] q[i]) by {
        assert(q[i] == b[k + i]);
    }
    lemma_strip_end_skips(l + kept, q, set);
    if kept.len() > 0 {
        assert((l + kept).last() == b[k - 1]);
    } else {
        assert((l + kept).last() == l.last());
    }
}

/// The part of `s` that is left when the characters of `set` are stripped
/// from its two ends.
pub fn strip_chars<'a>(s: &'a [char], set: CharSet) -> (r: &'a [char])
    ensures
        r@ == strip(s@, set),
{
    let len: usize = s.len();
    let mut lo: usize = 0;
    assert(s@.subrange(0, len as int) =~= s@);
    while lo < len && set.test(s[lo])
        invariant
            lo <= len == s@.len(),
            strip_start(s@, set) == strip_start(s@.subrange(lo as int, len as int), set),
        decreases len - lo,
    {
        proof {
            let t = s@.subrange(lo as int, len as int);
            assert(t.drop_first() =~= s@.subrange(lo + 1, len as int));
        }
        lo = lo + 1;
    }
    let ghost front = s@.subrange(lo as int, len as int);
    assert(strip_start(s@, set) == front);
    let mut hi: usize = len;
    while lo < hi && set.test(s[hi - 1])
        invariant
            lo <= hi <= len == s@.len(),
            front == s@.subrange(lo as int, len as int),
            strip_end(front, set) == strip_end(s@.subrange(lo as int, hi as int), set),
        decreases hi - lo,
    {
        proof {
            let t = s@.subrange(lo as int, hi as int);
            assert(t.drop_last() =~= s@.subrange(lo as int, hi - 1));
        }
        hi = hi - 1;
    }
    vstd::slice::slice_subrange(s, lo, hi)
}

/// The characters of `s`, in order.
pub fn chars_of(s: &str) -> (r: Vec<char>)
    ensures
        r@ == s@,
{
    let mut out: Vec<char> = Vec::new();
    for c in it: s.chars()
        invariant
            out@ == it.seq().take(it.index()),
            it.seq() == s@,
    {
        out.push(c);
    }
    out
}

/// `String::push` appends one character to the end of the string and leaves
/// the characters before it as they were.
pub assume_specification[ String::push ](s: &mut String, ch: char)
    ensures
        final(s)@ == old(s)@.push(ch),
;

/// The string made of the characters of `s`, in order.
pub fn string_of(s: &[char]) -> (r: String)
    ensures
        r@ == s@,
{
    let mut out: String = String::new();
    let len: usize = s.len();
    let mut i: usize = 0;
    while i < len
        invariant
            i <= len == s@.len(),
            out@ == s@.take(i as int),
        decreases len - i,
    {
        out.push(s[i]);
        i = i + 1;
        assert(out@ =~= s@.take(i as int));
    }
    assert(s@.take(len as int) =~= s@);
    out
}

} // verus!
