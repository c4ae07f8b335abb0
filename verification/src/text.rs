//! Character sequences: what the keys of the store are made of.
//!
//! A key is a path whose segments are separated by `/`. The functions here
//! say, over `Seq<char>`, where the first `/` of a key stands, what its
//! segments are and how two keys are ordered, and compute the same on the
//! characters of a string.

use vstd::prelude::*;

verus! {

/// The view of an optional string.
pub open spec fn opt_view(o: Option<String>) -> Option<Seq<char>> {
    match o {
        Some(s) => Some(s@),
        None => None,
    }
}

/// Where the first `/` of `s` stands, or the length of `s` where it has none.
pub open spec fn slash_index(s: Seq<char>) -> int
    decreases s.len(),
{
    if s.len() == 0 || s[0] == '/' {
        0
    } else {
        1 + slash_index(s.drop_first())
    }
}

/// Whether `i` is where the first `/` of `s` stands, the length of `s`
/// standing for "nowhere".
pub open spec fn first_slash_at(s: Seq<char>, i: int) -> bool {
    &&& 0 <= i <= s.len()
    &&& i < s.len() ==> s[i] == '/'
    &&& forall|j: int| 0 <= j < i ==> s[j] != '/'
}

/// `slash_index` is the one place that `first_slash_at` accepts.
pub proof fn lemma_slash_index(s: Seq<char>)
    ensures
        first_slash_at(s, slash_index(s)),
        s.contains('/') <==> slash_index(s) < s.len(),
        forall|i: int| first_slash_at(s, i) ==> i == slash_index(s),
    decreases s.len(),
{
    if s.len() > 0 && s[0] != '/' {
        let t = s.drop_first();
        lemma_slash_index(t);
        assert forall|j: int| 0 <= j < 1 + slash_index(t) implies s[j] != '/' by {
            if j > 0 {
                assert(s[j] == t[j - 1]);
            }
        }
    }
}

/// The part of `s` before its first `/`; all of `s` where it has none.
pub open spec fn first_segment(s: Seq<char>) -> Seq<char> {
    s.take(slash_index(s))
}

/// The segments of `s`: what stands between its `/`s, one segment more than
/// it has `/`s. Read from the left, a `/` opens a new segment and any other
/// character goes to the end of the last one.
pub open spec fn segments(s: Seq<char>) -> Seq<Seq<char>>
    decreases s.len(),
{
    if s.len() == 0 {
        seq![Seq::<char>::empty()]
    } else {
        let before = segments(s.drop_last());
        if s.last() == '/' {
            before.push(Seq::<char>::empty())
        } else {
            before.drop_last().push(before.last().push(s.last()))
        }
    }
}

/// The directories of `s`: all of its segments but the last.
pub open spec fn directories(s: Seq<char>) -> Seq<Seq<char>> {
    segments(s).drop_last()
}

/// The parts put together again with a `/` between each two.
pub open spec fn joined(parts: Seq<Seq<char>>) -> Seq<char>
    decreases parts.len(),
{
    if parts.len() == 0 {
        Seq::<char>::empty()
    } else if parts.len() == 1 {
        parts[0]
    } else {
        joined(parts.drop_last()) + seq!['/'] + parts.last()
    }
}

/// How many `/` stand in `s`.
pub open spec fn slash_count(s: Seq<char>) -> nat
    decreases s.len(),
{
    if s.len() == 0 {
        0
    } else {
        slash_count(s.drop_last()) + if s.last() == '/' {
            1nat
        } else {
            0nat
        }
    }
}

/// A sequence has one segment more than it has `/`s, none of its segments
/// holds a `/`, and joining the segments gives the sequence back.
pub proof fn lemma_segments(s: Seq<char>)
    ensures
        segments(s).len() == slash_count(s) + 1,
        forall|i: int| 0 <= i < segments(s).len() ==> !(#[trigger] segments(s)[i]).contains('/'),
        joined(segments(s)) == s,
        s.contains('/') <==> slash_count(s) > 0,
    decreases s.len(),
{
    if s.len() > 0 {
        let t = s.drop_last();
        lemma_segments(t);
        let before = segments(t);
        let after = segments(s);
        if s.last() == '/' {
            assert(after.drop_last() =~= before);
        } else {
            assert(forall|i: int| 0 <= i < after.len() ==> !(#[trigger] after[i]).contains('/'));
            if before.len() > 1 {
                assert(after.drop_last() =~= before.drop_last());
                assert(joined(after) =~= joined(before).push(s.last()));
            }
        }
    }
}

/// The first segment of `s` is what stands before its first `/`.
pub proof fn lemma_first_segment(s: Seq<char>)
    ensures
        segments(s)[0] == first_segment(s),
    decreases s.len(),
{
    lemma_slash_index(s);
    lemma_segments(s);
    if s.len() > 0 {
        let t = s.drop_last();
        lemma_first_segment(t);
        lemma_slash_index(t);
        lemma_segments(t);
        let k = slash_index(t);
        if s.last() == '/' || k < t.len() {
            assert(first_slash_at(s, k)) by {
                assert forall|j: int| 0 <= j < k implies s[j] != '/' by {
                    assert(s[j] == t[j]);
                }
            }
        } else {
            assert(first_slash_at(s, s.len() as int));
        }
    }
}

/// The first `k` segments of `s`, joined, are the start of `s`: all of `s`
/// where they are all of its segments, and else the part before one of its
/// `/`s.
pub proof fn lemma_joined_prefix(s: Seq<char>, k: int)
    requires
        1 <= k <= segments(s).len(),
    ensures
        joined(segments(s).take(k)).is_prefix_of(s),
        k == segments(s).len() ==> joined(segments(s).take(k)) == s,
        k < segments(s).len() ==> joined(segments(s).take(k)).len() < s.len() && s[joined(
            segments(s).take(k),
        ).len() as int] == '/',
    decreases s.len(),
{
    lemma_segments(s);
    let after = segments(s);
    if k == after.len() {
        assert(after.take(k) =~= after);
    } else {
        let t = s.drop_last();
        let before = segments(t);
        assert(after.take(k) =~= before.take(k));
        lemma_joined_prefix(t, k);
        let j = joined(before.take(k));
        assert(j =~= s.subrange(0, j.len() as int));
    }
}

/// Whether `a` comes before `b` in the order of a dictionary, characters
/// compared by their code points: at the first place where the two differ
/// `a` has ended, or holds the smaller character.
pub open spec fn lex_lt(a: Seq<char>, b: Seq<char>) -> bool {
    exists|k: int| lex_lt_at(a, b, k)
}

/// Whether `a` and `b` agree before `k` and `a` is the smaller one at `k`.
pub open spec fn lex_lt_at(a: Seq<char>, b: Seq<char>, k: int) -> bool {
    &&& 0 <= k <= a.len()
    &&& k < b.len()
    &&& a.take(k) == b.take(k)
    &&& k < a.len() ==> (a[k] as int) < (b[k] as int)
}

/// No two sequences come before each other, and none before itself.
pub proof fn lemma_lex_asymmetric(a: Seq<char>, b: Seq<char>)
    ensures
        !(lex_lt(a, b) && lex_lt(b, a)),
        !lex_lt(a, a),
{
    if lex_lt(a, b) && lex_lt(b, a) {
        let k = choose|k: int| lex_lt_at(a, b, k);
        let m = choose|m: int| lex_lt_at(b, a, m);
        if k < m {
            assert(b.take(m)[k] == a.take(m)[k]);
        } else if m < k {
            assert(a.take(k)[m] == b.take(k)[m]);
        }
    }
}

/// Of two different sequences one comes before the other.
pub proof fn lemma_lex_total(a: Seq<char>, b: Seq<char>)
    ensures
        a == b || lex_lt(a, b) || lex_lt(b, a),
{
    let k = common_prefix_len(a, b);
    lemma_common_prefix(a, b);
    if k == a.len() && k == b.len() {
        assert(a =~= a.take(k));
    } else if k == b.len() {
        assert(lex_lt_at(b, a, k));
    } else if k < a.len() && (a[k] as int) < (b[k] as int) {
        assert(lex_lt_at(a, b, k));
    }
}

/// The order passes on: what comes before something that comes before `c`
/// comes before `c`.
pub proof fn lemma_lex_transitive(a: Seq<char>, b: Seq<char>, c: Seq<char>)
    requires
        lex_lt(a, b),
        lex_lt(b, c),
    ensures
        lex_lt(a, c),
{
    let k = choose|k: int| lex_lt_at(a, b, k);
    let m = choose|m: int| lex_lt_at(b, c, m);
    if k <= m {
        assert(a.take(k) =~= c.take(k)) by {
            assert forall|j: int| 0 <= j < k implies a[j] == c[j] by {
                assert(a.take(k)[j] == b.take(k)[j]);
            }
        }
        if k < m {
            assert(b.take(m)[k] == c.take(m)[k]);
        }
        assert(lex_lt_at(a, c, k));
    } else {
        assert(a.take(m) =~= c.take(m)) by {
            assert forall|j: int| 0 <= j < m implies a[j] == c[j] by {
                assert(a.take(k)[j] == b.take(k)[j]);
            }
        }
        assert(a.take(k)[m] == b.take(k)[m]);
        assert(lex_lt_at(a, c, m));
    }
}

/// How many characters `a` and `b` share at their start.
pub open spec fn common_prefix_len(a: Seq<char>, b: Seq<char>) -> int
    decreases a.len(),
{
    if a.len() == 0 || b.len() == 0 || a[0] != b[0] {
        0
    } else {
        1 + common_prefix_len(a.drop_first(), b.drop_first())
    }
}

/// `common_prefix_len` is the first place where the two differ or one ends.
pub proof fn lemma_common_prefix(a: Seq<char>, b: Seq<char>)
    ensures
        0 <= common_prefix_len(a, b) <= a.len(),
        common_prefix_len(a, b) <= b.len(),
        a.take(common_prefix_len(a, b)) == b.take(common_prefix_len(a, b)),
        common_prefix_len(a, b) < a.len() && common_prefix_len(a, b) < b.len()
            ==> a[common_prefix_len(a, b)] != b[common_prefix_len(a, b)],
    decreases a.len(),
{
    if a.len() > 0 && b.len() > 0 && a[0] == b[0] {
        let x = a.drop_first();
        let y = b.drop_first();
        lemma_common_prefix(x, y);
        let k = common_prefix_len(x, y);
        assert(a.take(k + 1) =~= b.take(k + 1)) by {
            assert forall|j: int| 0 <= j < k + 1 implies a[j] == b[j] by {
                if j > 0 {
                    assert(x.take(k)[j - 1] == y.take(k)[j - 1]);
                }
            }
        }
    }
}

/// The characters of `s`, one by one.
pub fn chars_of(s: &str) -> (v: Vec<char>)
    ensures
        v@ == s@,
{
    let mut v: Vec<char> = Vec::new();
    for c in iter: s.chars()
        invariant
            iter.seq() == s@,
            v@ == s@.take(iter.index() as int),
    {
        v.push(c);
    }
    v
}

/// Where the first `/` of `v` stands, or the length of `v` where it has none.
pub fn find_slash(v: &Vec<char>) -> (r: usize)
    ensures
        r == slash_index(v@),
{
    let mut i: usize = 0;
    while i < v.len() && v[i] != '/'
        invariant
            i <= v.len(),
            forall|j: int| 0 <= j < i ==> v@[j] != '/',
        decreases v.len() - i,
    {
        i = i + 1;
    }
    proof {
        lemma_slash_index(v@);
    }
    i
}

/// Whether `p` stands at the start of `v`.
pub fn starts_with(v: &Vec<char>, p: &Vec<char>) -> (r: bool)
    ensures
        r == p@.is_prefix_of(v@),
{
    if p.len() > v.len() {
        return false;
    }
    let mut i: usize = 0;
    while i < p.len()
        invariant
            i <= p.len() <= v.len(),
            forall|j: int| 0 <= j < i ==> v@[j] == p@[j],
        decreases p.len() - i,
    {
        if v[i] != p[i] {
            return false;
        }
        i = i + 1;
    }
    true
}

/// Whether `a` comes before `b` in the order of a dictionary.
pub fn lex_less(a: &Vec<char>, b: &Vec<char>) -> (r: bool)
    ensures
        r == lex_lt(a@, b@),
{
    let mut i: usize = 0;
    while i < a.len() && i < b.len() && a[i] == b[i]
        invariant
            i <= a.len(),
            i <= b.len(),
            a@.take(i as int) == b@.take(i as int),
        decreases a.len() - i,
    {
        i = i + 1;
    }
    let r = if i == b.len() {
        false
    } else if i == a.len() {
        true
    } else {
        a[i] < b[i]
    };
    proof {
        if r {
            assert(lex_lt_at(a@, b@, i as int));
        } else {
            lemma_lex_asymmetric(a@, b@);
            if i == b.len() && i == a.len() {
                assert(a@ =~= a@.take(i as int));
            } else {
                assert(lex_lt_at(b@, a@, i as int));
            }
        }
    }
    r
}

/// Whether `a` comes before `b` in the order of a dictionary.
pub fn text_before(a: &str, b: &str) -> (r: bool)
    ensures
        r == lex_lt(a@, b@),
{
    let x = chars_of(a);
    let y = chars_of(b);
    lex_less(&x, &y)
}

/// The character that stands for a digit.
pub open spec fn digit(d: int) -> char {
    if d == 0 {
        '0'
    } else if d == 1 {
        '1'
    } else if d == 2 {
        '2'
    } else if d == 3 {
        '3'
    } else if d == 4 {
        '4'
    } else if d == 5 {
        '5'
    } else if d == 6 {
        '6'
    } else if d == 7 {
        '7'
    } else if d == 8 {
        '8'
    } else {
        '9'
    }
}

/// The number in decimal digits, without leading zeros.
pub open spec fn decimal(n: nat) -> Seq<char>
    decreases n,
{
    if n < 10 {
        seq![digit(n as int)]
    } else {
        decimal(n / 10).push(digit((n % 10) as int))
    }
}

/// The digit `d` as text.
fn digit_text(d: u64) -> (r: &'static str)
    requires
        d < 10,
    ensures
        r@ == seq![digit(d as int)],
{
    proof {
        reveal_strlit("0");
        reveal_strlit("1");
        reveal_strlit("2");
        reveal_strlit("3");
        reveal_strlit("4");
        reveal_strlit("5");
        reveal_strlit("6");
        reveal_strlit("7");
        reveal_strlit("8");
        reveal_strlit("9");
    }
    let r = if d == 0 {
        "0"
    } else if d == 1 {
        "1"
    } else if d == 2 {
        "2"
    } else if d == 3 {
        "3"
    } else if d == 4 {
        "4"
    } else if d == 5 {
        "5"
    } else if d == 6 {
        "6"
    } else if d == 7 {
        "7"
    } else if d == 8 {
        "8"
    } else {
        "9"
    };
    r
}

/// The number in decimal digits.
pub fn decimal_text(n: u64) -> (r: String)
    ensures
        r@ == decimal(n as nat),
    decreases n,
{
    if n < 10 {
        String::from_str(digit_text(n))
    } else {
        let r = decimal_text(n / 10).concat(digit_text(n % 10));
        r
    }
}

} // verus!
