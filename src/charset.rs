use vstd::prelude::*;

verus! {

/// The codepoint of a character.
pub open spec fn cp(c: char) -> int {
    c as u32 as int
}

/// Characters in strictly ascending codepoint order (so without duplicates).
pub open spec fn strictly_sorted(s: Seq<char>) -> bool {
    forall|i: int, j: int| 0 <= i < j < s.len() ==> cp(#[trigger] s[i]) < cp(#[trigger] s[j])
}

/// `a` and `b` hold the same characters, ignoring order and repetition.
pub open spec fn same_chars(a: Seq<char>, b: Seq<char>) -> bool {
    forall|c: char| a.contains(c) <==> b.contains(c)
}

/// `r` is the normalized character set of `text`.
pub open spec fn is_char_set_of(r: Seq<char>, text: Seq<char>) -> bool {
    strictly_sorted(r) && same_chars(r, text)
}

/// The distinct characters of `text`, in ascending codepoint order.
pub open spec fn char_set(text: Seq<char>) -> Seq<char> {
    choose|r: Seq<char>| is_char_set_of(r, text)
}

/// Two strictly sorted sequences with the same characters are equal.
pub proof fn lemma_sorted_same_chars_equal(a: Seq<char>, b: Seq<char>)
    requires
        strictly_sorted(a),
        strictly_sorted(b),
        same_chars(a, b),
    ensures
        a == b,
    decreases a.len(),
{
    if a.len() == 0 {
        if b.len() > 0 {
            assert(b.contains(b[0]));
        }
        assert(a =~= b);
    } else {
        assert(a.contains(a[0]));
        assert(b.len() > 0);
        assert(b.contains(b[0]));
        let k = choose|k: int| 0 <= k < b.len() && b[k] == a[0];
        let m = choose|m: int| 0 <= m < a.len() && a[m] == b[0];
        if m > 0 {
            assert(cp(a[0]) < cp(a[m]));
        }
        if k > 0 {
            assert(cp(b[0]) < cp(b[k]));
        }
        assert(cp(a[0]) == cp(b[0]));
        assert(a[0] == b[0]) by {
            vstd::utf8::char_u32_cast(a[0], a[0] as u32);
        }
        let ta = a.drop_first();
        let tb = b.drop_first();
        assert forall|c: char| ta.contains(c) <==> tb.contains(c) by {
            if ta.contains(c) {
                let i = choose|i: int| 0 <= i < ta.len() && ta[i] == c;
                assert(a[i + 1] == c);
                assert(cp(a[0]) < cp(c));
                assert(b.contains(c));
                let j = choose|j: int| 0 <= j < b.len() && b[j] == c;
                assert(j != 0);
                assert(tb[j - 1] == c);
            }
            if tb.contains(c) {
                let i = choose|i: int| 0 <= i < tb.len() && tb[i] == c;
                assert(b[i + 1] == c);
                assert(cp(b[0]) < cp(c));
                assert(a.contains(c));
                let j = choose|j: int| 0 <= j < a.len() && a[j] == c;
                assert(j != 0);
                assert(ta[j - 1] == c);
            }
        }
        lemma_sorted_same_chars_equal(ta, tb);
        assert(a =~= seq![a[0]] + ta);
        assert(b =~= seq![b[0]] + tb);
    }
}

/// `r` with `c` put in its place by codepoint, unless `r` already holds it.
pub open spec fn insert_sorted(r: Seq<char>, c: char) -> Seq<char>
    decreases r.len(),
{
    if r.len() == 0 {
        seq![c]
    } else if cp(c) < cp(r[0]) {
        seq![c] + r
    } else if r[0] == c {
        r
    } else {
        seq![r[0]] + insert_sorted(r.drop_first(), c)
    }
}

proof fn lemma_cp_injective(a: char, b: char)
    ensures
        cp(a) == cp(b) ==> a == b,
{
    vstd::utf8::char_u32_cast(a, a as u32);
    vstd::utf8::char_u32_cast(b, b as u32);
}

proof fn lemma_insert_sorted(r: Seq<char>, c: char)
    requires
        strictly_sorted(r),
    ensures
        strictly_sorted(insert_sorted(r, c)),
        forall|d: char| #[trigger] insert_sorted(r, c).contains(d) <==> (r.contains(d) || d == c),
    decreases r.len(),
{
    let x = insert_sorted(r, c);
    if r.len() == 0 {
        assert(x[0] == c);
    } else if cp(c) < cp(r[0]) {
        assert forall|d: char| x.contains(d) <==> (r.contains(d) || d == c) by {
            if r.contains(d) {
                let k = choose|k: int| 0 <= k < r.len() && r[k] == d;
                assert(x[k + 1] == d);
            }
            if x.contains(d) {
                let k = choose|k: int| 0 <= k < x.len() && x[k] == d;
                if k > 0 {
                    assert(r[k - 1] == d);
                }
            }
            if d == c {
                assert(x[0] == d);
            }
        }
        assert forall|i: int, j: int| 0 <= i < j < x.len() implies cp(#[trigger] x[i]) < cp(#[trigger] x[j]) by {
            if i > 0 {
                assert(x[i] == r[i - 1] && x[j] == r[j - 1]);
            } else {
                assert(x[j] == r[j - 1]);
                if j > 1 {
                    assert(cp(r[0]) < cp(r[j - 1]));
                }
            }
        }
    } else if r[0] == c {
        assert(r.contains(r[0]));
    } else {
        lemma_cp_injective(c, r[0]);
        let t = r.drop_first();
        let y = insert_sorted(t, c);
        assert(strictly_sorted(t)) by {
            assert forall|i: int, j: int| 0 <= i < j < t.len() implies cp(#[trigger] t[i]) < cp(#[trigger] t[j]) by {
                assert(t[i] == r[i + 1] && t[j] == r[j + 1]);
            }
        }
        lemma_insert_sorted(t, c);
        assert(x =~= seq![r[0]] + y);
        assert forall|d: char| x.contains(d) <==> (r.contains(d) || d == c) by {
            if r.contains(d) {
                let k = choose|k: int| 0 <= k < r.len() && r[k] == d;
                if k == 0 {
                    assert(x[0] == d);
                } else {
                    assert(t[k - 1] == d);
                    assert(y.contains(d));
                    let m = choose|m: int| 0 <= m < y.len() && y[m] == d;
                    assert(x[m + 1] == d);
                }
            }
            if x.contains(d) {
                let k = choose|k: int| 0 <= k < x.len() && x[k] == d;
                if k == 0 {
                    assert(r[0] == d);
                } else {
                    assert(y[k - 1] == d);
                    assert(y.contains(d));
                    if d != c {
                        assert(t.contains(d));
                        let m = choose|m: int| 0 <= m < t.len() && t[m] == d;
                        assert(r[m + 1] == d);
                    }
                }
            }
            if d == c {
                assert(y.contains(c));
                let m = choose|m: int| 0 <= m < y.len() && y[m] == c;
                assert(x[m + 1] == c);
            }
        }
        assert forall|i: int, j: int| 0 <= i < j < x.len() implies cp(#[trigger] x[i]) < cp(#[trigger] x[j]) by {
            if i > 0 {
                assert(x[i] == y[i - 1] && x[j] == y[j - 1]);
            } else {
                assert(x[j] == y[j - 1]);
                assert(y.contains(y[j - 1]));
                if y[j - 1] != c {
                    let m = choose|m: int| 0 <= m < t.len() && t[m] == y[j - 1];
                    assert(r[m + 1] == y[j - 1]);
                }
            }
        }
    }
}

/// Every text has a normalized character set.
pub proof fn lemma_char_set_exists(text: Seq<char>)
    ensures
        is_char_set_of(char_set(text), text),
    decreases text.len(),
{
    if text.len() == 0 {
        let e = Seq::<char>::empty();
        assert(is_char_set_of(e, text));
    } else {
        let p = text.drop_last();
        lemma_char_set_exists(p);
        let r = char_set(p);
        let c = text.last();
        lemma_insert_sorted(r, c);
        let x = insert_sorted(r, c);
        assert forall|d: char| x.contains(d) <==> text.contains(d) by {
            if text.contains(d) && d != c {
                let k = choose|k: int| 0 <= k < text.len() && text[k] == d;
                assert(p[k] == d);
            }
            if p.contains(d) {
                let k = choose|k: int| 0 <= k < p.len() && p[k] == d;
                assert(text[k] == d);
            }
            if d == c {
                assert(text[text.len() - 1] == d);
            }
        }
        assert(is_char_set_of(x, text));
    }
}

/// Whatever is a normalized character set of `text` is `char_set(text)`.
pub proof fn lemma_char_set_unique(r: Seq<char>, text: Seq<char>)
    requires
        is_char_set_of(r, text),
    ensures
        char_set(text) == r,
        is_char_set_of(char_set(text), text),
{
    let c = char_set(text);
    assert(is_char_set_of(c, text));
    lemma_sorted_same_chars_equal(c, r);
}

/// Extracts the characters of `text`, sorts them by codepoint and removes
/// repeated ones.
pub fn sort_characters(text: &str) -> (r: Vec<char>)
    ensures
        r@ == char_set(text@),
        is_char_set_of(r@, text@),
{
    let n = text.unicode_len();
    let mut v: Vec<char> = Vec::new();
    let mut i: usize = 0;
    while i < n
        invariant
            n == text@.len(),
            i <= n,
            strictly_sorted(v@),
            same_chars(v@, text@.subrange(0, i as int)),
        decreases n - i,
    {
        let c = text.get_char(i);
        let mut j: usize = 0;
        while j < v.len() && (v[j] as u32) < (c as u32)
            invariant
                j <= v.len(),
                forall|k: int| 0 <= k < j ==> cp(#[trigger] v@[k]) < cp(c),
            decreases v.len() - j,
        {
            j = j + 1;
        }
        let ghost prev = v@;
        let ghost pre = text@.subrange(0, i as int);
        let ghost next = text@.subrange(0, i + 1);
        assert(next =~= pre.push(c));
        if j < v.len() && v[j] == c {
            assert forall|d: char| v@.contains(d) <==> next.contains(d) by {
                if next.contains(d) && d != c {
                    let k = choose|k: int| 0 <= k < next.len() && next[k] == d;
                    assert(pre[k] == d);
                }
                if v@.contains(d) && !pre.contains(d) {
                    assert(false);
                }
                if pre.contains(d) {
                    let k = choose|k: int| 0 <= k < pre.len() && pre[k] == d;
                    assert(next[k] == d);
                }
            }
        } else {
            if j < v.len() {
                assert(cp(v@[j as int]) != cp(c)) by {
                    vstd::utf8::char_u32_cast(c, c as u32);
                    vstd::utf8::char_u32_cast(v@[j as int], v@[j as int] as u32);
                }
            }
            v.insert(j, c);
            assert(v@ == prev.insert(j as int, c));
            assert forall|a: int, b: int| 0 <= a < b < v@.len() implies cp(#[trigger] v@[a]) < cp(#[trigger] v@[b]) by {
                if b < j {
                } else if b == j {
                } else if a < j {
                    assert(v@[b] == prev[b - 1]);
                    if j < prev.len() {
                        assert(cp(prev[j as int]) <= cp(prev[b - 1]));
                    }
                } else if a == j {
                    assert(v@[b] == prev[b - 1]);
                    assert(cp(prev[j as int]) <= cp(prev[b - 1]));
                } else {
                    assert(v@[a] == prev[a - 1]);
                    assert(v@[b] == prev[b - 1]);
                }
            }
            assert forall|d: char| v@.contains(d) <==> next.contains(d) by {
                if v@.contains(d) {
                    let k = choose|k: int| 0 <= k < v@.len() && v@[k] == d;
                    if k < j {
                        assert(prev[k] == d);
                    } else if k > j {
                        assert(prev[k - 1] == d);
                    } else {
                        assert(next[i as int] == d);
                    }
                    if d != c {
                        assert(prev.contains(d));
                        assert(pre.contains(d));
                        let m = choose|m: int| 0 <= m < pre.len() && pre[m] == d;
                        assert(next[m] == d);
                    }
                    else {
                        assert(next[i as int] == d);
                    }
                }
                if next.contains(d) {
                    if d == c {
                        assert(v@[j as int] == d);
                    } else {
                        let k = choose|k: int| 0 <= k < next.len() && next[k] == d;
                        assert(pre[k] == d);
                        assert(prev.contains(d));
                        let m = choose|m: int| 0 <= m < prev.len() && prev[m] == d;
                        if m < j {
                            assert(v@[m] == d);
                        } else {
                            assert(v@[m + 1] == d);
                        }
                    }
                }
            }
        }
        i = i + 1;
    }
    assert(text@.subrange(0, n as int) =~= text@);
    proof {
        lemma_char_set_unique(v@, text@);
    }
    v
}

} // verus!
