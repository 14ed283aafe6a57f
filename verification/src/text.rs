use vstd::prelude::*;

verus! {

/// The characters of `s`, in order.
pub fn chars_of(s: &str) -> (v: Vec<char>)
    ensures
        v@ == s@,
{
    let mut v: Vec<char> = Vec::new();
    for c in it: s.chars()
        invariant
            v@ == it.seq().take(it.index() as int),
            it.seq() == s@,
    {
        v.push(c);
    }
    v
}


/// `String::push` from std: appends one character at the end.
#[verifier::external_body]
pub(crate) fn push_char(s: &mut String, c: char)
    ensures
        final(s)@ == old(s)@.push(c),
{
    s.push(c);
}

/// ASCII letters and digits, as `char::is_ascii_alphanumeric` defines them.
pub open spec fn is_ascii_alnum(c: char) -> bool {
    ('0' <= c && c <= '9') || ('a' <= c && c <= 'z') || ('A' <= c && c <= 'Z')
}

/// `char::to_ascii_lowercase`: ASCII upper-case letters map to lower case, all
/// other characters to themselves.
pub open spec fn ascii_lower(c: char) -> char {
    if 'A' <= c && c <= 'Z' {
        ((c as u32) + 32) as char
    } else {
        c
    }
}

/// Executable `char::is_ascii_alphanumeric`.
pub fn char_is_ascii_alnum(c: char) -> (b: bool)
    ensures
        b == is_ascii_alnum(c),
{
    ('0' <= c && c <= '9') || ('a' <= c && c <= 'z') || ('A' <= c && c <= 'Z')
}

/// Executable `char::to_ascii_lowercase`.
pub fn char_to_ascii_lower(c: char) -> (r: char)
    ensures
        r == ascii_lower(c),
{
    if 'A' <= c && c <= 'Z' {
        let b: u8 = c as u8;
        (b + 32) as char
    } else {
        c
    }
}


/// The order of Rust's `str`: lexicographic by character (code point), which
/// is the order of the UTF-8 bytes; a proper prefix comes first.
pub open spec fn str_lt(a: Seq<char>, b: Seq<char>) -> bool
    decreases a.len(),
{
    if a.len() == 0 {
        b.len() > 0
    } else if b.len() == 0 {
        false
    } else if a[0] != b[0] {
        (a[0] as u32) < (b[0] as u32)
    } else {
        str_lt(a.drop_first(), b.drop_first())
    }
}

/// Two different texts are ordered one way or the other, and never both ways.
pub proof fn lemma_str_lt_total(a: Seq<char>, b: Seq<char>)
    ensures
        a != b ==> str_lt(a, b) || str_lt(b, a),
        !(str_lt(a, b) && str_lt(b, a)),
    decreases a.len(),
{
    if a.len() > 0 && b.len() > 0 {
        if a[0] == b[0] {
            lemma_str_lt_total(a.drop_first(), b.drop_first());
            if a != b {
                assert(a == seq![a[0]] + a.drop_first());
                assert(b == seq![b[0]] + b.drop_first());
            }
        } else {
            vstd::utf8::char_u32_cast(a[0], a[0] as u32);
            vstd::utf8::char_u32_cast(b[0], b[0] as u32);
        }
    } else if a.len() == 0 && b.len() == 0 {
        assert(a == b);
    }
}

/// The order is transitive.
pub proof fn lemma_str_lt_transitive(a: Seq<char>, b: Seq<char>, c: Seq<char>)
    requires
        str_lt(a, b),
        str_lt(b, c),
    ensures
        str_lt(a, c),
    decreases a.len(),
{
    if a.len() > 0 && b.len() > 0 && c.len() > 0 {
        if a[0] == b[0] && b[0] == c[0] {
            lemma_str_lt_transitive(a.drop_first(), b.drop_first(), c.drop_first());
        }
    }
}

proof fn lemma_str_lt_common_prefix(a: Seq<char>, b: Seq<char>, i: int)
    requires
        0 <= i <= a.len(),
        i <= b.len(),
        a.take(i) == b.take(i),
    ensures
        str_lt(a, b) == str_lt(a.skip(i), b.skip(i)),
    decreases i,
{
    if i > 0 {
        assert(a[0] == a.take(i)[0]);
        assert(b[0] == b.take(i)[0]);
        assert(a.drop_first().take(i - 1) == a.take(i).drop_first());
        assert(b.drop_first().take(i - 1) == b.take(i).drop_first());
        lemma_str_lt_common_prefix(a.drop_first(), b.drop_first(), i - 1);
        assert(a.drop_first().skip(i - 1) == a.skip(i));
        assert(b.drop_first().skip(i - 1) == b.skip(i));
    } else {
        assert(a.skip(0) == a);
        assert(b.skip(0) == b);
    }
}

/// Whether `a` comes before `b` in the order of `str`.
pub fn str_less(a: &str, b: &str) -> (lt: bool)
    ensures
        lt == str_lt(a@, b@),
{
    let x = chars_of(a);
    let y = chars_of(b);
    let mut i: usize = 0;
    while i < x.len() && i < y.len()
        invariant
            x@ == a@,
            y@ == b@,
            i <= x@.len(),
            i <= y@.len(),
            x@.take(i as int) == y@.take(i as int),
        decreases x@.len() - i,
    {
        if x[i] != y[i] {
            proof {
                lemma_str_lt_common_prefix(x@, y@, i as int);
                assert(x@.skip(i as int)[0] == x@[i as int]);
                assert(y@.skip(i as int)[0] == y@[i as int]);
            }
            return (x[i] as u32) < (y[i] as u32);
        }
        proof {
            assert(x@.take(i + 1) == x@.take(i as int).push(x@[i as int]));
            assert(y@.take(i + 1) == y@.take(i as int).push(y@[i as int]));
        }
        i = i + 1;
    }
    proof {
        lemma_str_lt_common_prefix(x@, y@, i as int);
    }
    i == x.len() && i < y.len()
}

/// The texts of a sequence of strings.
pub open spec fn texts(v: Seq<String>) -> Seq<Seq<char>> {
    v.map_values(|s: String| s@)
}

/// The texts stand in strictly increasing `str` order (so none occurs twice).
pub open spec fn strictly_sorted(v: Seq<Seq<char>>) -> bool {
    forall|i: int, j: int| 0 <= i < j < v.len() ==> str_lt(#[trigger] v[i], #[trigger] v[j])
}

/// No text occurs twice.
pub open spec fn distinct(v: Seq<Seq<char>>) -> bool {
    forall|i: int, j: int| 0 <= i < j < v.len() ==> #[trigger] v[i] != #[trigger] v[j]
}

/// Appending a text adds it to the set of texts.
pub proof fn lemma_push_to_set(s: Seq<Seq<char>>, x: Seq<char>)
    ensures
        s.push(x).to_set() == s.to_set().insert(x),
{
    assert forall|t: Seq<char>| s.push(x).to_set().contains(t) <==> s.to_set().insert(x).contains(t) by {
        if s.push(x).to_set().contains(t) {
            let q = choose|q: int| 0 <= q < s.len() + 1 && s.push(x)[q] == t;
            if q < s.len() {
                assert(s[q] == t);
            }
        }
        if s.to_set().contains(t) {
            let q = choose|q: int| 0 <= q < s.len() && s[q] == t;
            assert(s.push(x)[q] == t);
        }
        if t == x {
            assert(s.push(x)[s.len() as int] == t);
        }
    }
}

/// Sort strings that are all different into strictly increasing `str` order.
pub fn sort_distinct(v: Vec<String>) -> (sorted: Vec<String>)
    requires
        distinct(texts(v@)),
    ensures
        strictly_sorted(texts(sorted@)),
        texts(sorted@).to_set() == texts(v@).to_set(),
        sorted@.len() == v@.len(),
{
    let mut sorted: Vec<String> = Vec::new();
    let n = v.len();
    let mut k: usize = 0;
    while k < n
        invariant
            n == v@.len(),
            k <= n,
            distinct(texts(v@)),
            strictly_sorted(texts(sorted@)),
            texts(sorted@).to_set() == texts(v@).take(k as int).to_set(),
            sorted@.len() == k,
        decreases n - k,
    {
        let x = v[k].clone();
        let ghost before = sorted@;
        let mut p: usize = 0;
        while p < sorted.len() && !str_less(x.as_str(), sorted[p].as_str())
            invariant
                sorted@ == before,
                p <= sorted@.len(),
                forall|q: int| 0 <= q < p ==> !str_lt(x@, #[trigger] sorted@[q]@),
            decreases sorted@.len() - p,
        {
            p = p + 1;
        }
        proof {
            assert(texts(v@).take(k + 1) == texts(v@).take(k as int).push(x@));
            assert(!texts(before).contains(x@)) by {
                if texts(before).contains(x@) {
                    let q = choose|q: int| 0 <= q < before.len() && texts(before)[q] == x@;
                    assert(texts(before).to_set().contains(x@));
                    assert(texts(v@).take(k as int).to_set().contains(x@));
                    let r = choose|r: int| 0 <= r < k && texts(v@).take(k as int)[r] == x@;
                    assert(texts(v@)[r] == texts(v@)[k as int]);
                }
            }
        }
        sorted.insert(p, x);
        proof {
            let after = sorted@;
            assert(texts(after) == texts(before).insert(p as int, x@));
            assert forall|i: int, j: int| 0 <= i < j < after.len() implies str_lt(
                #[trigger] texts(after)[i],
                #[trigger] texts(after)[j],
            ) by {
                let ta = texts(after);
                let tb = texts(before);
                if j < p {
                    assert(ta[i] == tb[i] && ta[j] == tb[j]);
                } else if i > p {
                    assert(ta[i] == tb[i - 1] && ta[j] == tb[j - 1]);
                } else if i == p {
                    assert(ta[j] == tb[j - 1]);
                    if p < before.len() {
                        assert(str_lt(x@, tb[p as int]));
                        if j - 1 > p {
                            lemma_str_lt_transitive(x@, tb[p as int], tb[j - 1]);
                        }
                    }
                } else {
                    assert(ta[i] == tb[i]);
                    assert(!str_lt(x@, before[i]@));
                    assert(tb[i] != x@) by {
                        assert(tb.contains(tb[i]));
                    }
                    lemma_str_lt_total(tb[i], x@);
                    if j > p {
                        assert(ta[j] == tb[j - 1]);
                        assert(str_lt(x@, tb[p as int]));
                        if j - 1 > p {
                            lemma_str_lt_transitive(x@, tb[p as int], tb[j - 1]);
                        }
                        lemma_str_lt_transitive(tb[i], x@, tb[j - 1]);
                    } else {
                        assert(ta[j] == x@);
                    }
                }
            }
            assert(texts(after).to_set() == texts(before).to_set().insert(x@)) by {
                assert forall|t: Seq<char>| texts(after).to_set().contains(t) <==> texts(
                    before,
                ).to_set().insert(x@).contains(t) by {
                    if texts(after).to_set().contains(t) {
                        let q = choose|q: int| 0 <= q < texts(after).len() && texts(after)[q] == t;
                        if q < p {
                            assert(texts(before)[q] == t);
                        } else if q > p {
                            assert(texts(before)[q - 1] == t);
                        }
                    }
                    if texts(before).to_set().contains(t) {
                        let q = choose|q: int| 0 <= q < texts(before).len() && texts(before)[q] == t;
                        if q < p {
                            assert(texts(after)[q] == t);
                        } else {
                            assert(texts(after)[q + 1] == t);
                        }
                    }
                    if t == x@ {
                        assert(texts(after)[p as int] == t);
                    }
                }
            }
            lemma_push_to_set(texts(v@).take(k as int), x@);
        }
        k = k + 1;
    }
    proof {
        assert(texts(v@).take(n as int) == texts(v@));
    }
    sorted
}

} // verus!
