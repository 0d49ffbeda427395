use vstd::prelude::*;
use vstd::string::*;
use crate::charset::{char_set, cp, sort_characters};
use crate::error::SubsetError;
use crate::digits::{hex_text, push_hex};

verus! {

/// The maximal runs of consecutive codepoints in `s`, scanned left to right,
/// each as a half-open interval `(start, end)`: a codepoint equal to the open
/// run's end extends it, any other one starts a new run.
pub open spec fn ranges(s: Seq<char>) -> Seq<(int, int)>
    decreases s.len(),
{
    if s.len() == 0 {
        seq![]
    } else {
        let r = ranges(s.drop_last());
        let c = cp(s.last());
        if r.len() > 0 && r.last().1 == c {
            r.update(r.len() - 1, (r.last().0, c + 1))
        } else {
            r.push((c, c + 1))
        }
    }
}

/// The CSS text of one half-open run: nothing for an empty run, `U+s` for one
/// codepoint, `U+s, U+t` for two and `U+s-t` for three or more, in upper-case
/// hexadecimal.
pub open spec fn range_text(r: (int, int)) -> Seq<char> {
    let span = r.1 - r.0;
    if span <= 0 {
        seq![]
    } else if span == 1 {
        "U+"@ + hex_text(r.0 as nat, true)
    } else if span == 2 {
        "U+"@ + hex_text(r.0 as nat, true) + ", U+"@ + hex_text((r.1 - 1) as nat, true)
    } else {
        "U+"@ + hex_text(r.0 as nat, true) + "-"@ + hex_text((r.1 - 1) as nat, true)
    }
}

/// `parts` joined with `sep` between each two neighbours.
pub open spec fn joined(parts: Seq<Seq<char>>, sep: Seq<char>) -> Seq<char>
    decreases parts.len(),
{
    if parts.len() == 0 {
        seq![]
    } else if parts.len() == 1 {
        parts[0]
    } else {
        joined(parts.drop_last(), sep) + sep + parts.last()
    }
}

/// The `unicode-range` value of the characters of `text`.
pub open spec fn unicode_range_text(text: Seq<char>) -> Seq<char> {
    joined(ranges(char_set(text)).map_values(|r: (int, int)| range_text(r)), ", "@)
}

/// Renders the half-open codepoint run `[start, end)` as CSS.
pub fn format_range(start: u32, end: u32) -> (r: String)
    requires
        start <= end,
    ensures
        r@ == range_text((start as int, end as int)),
{
    let mut out = String::new();
    let span = end - start;
    if span == 0 {
    } else if span == 1 {
        out.append("U+");
        push_hex(&mut out, start, true);
    } else if span == 2 {
        out.append("U+");
        push_hex(&mut out, start, true);
        out.append(", U+");
        push_hex(&mut out, end - 1, true);
    } else {
        out.append("U+");
        push_hex(&mut out, start, true);
        out.append("-");
        push_hex(&mut out, end - 1, true);
    }
    assert(out@ =~= range_text((start as int, end as int)));
    out
}

proof fn lemma_char_cp_bound(c: char)
    ensures
        0 <= cp(c) <= 0x10FFFF,
{
    vstd::utf8::char_is_scalar(c);
}

/// The `unicode-range` value for the characters of `text`: its distinct
/// codepoints grouped into maximal consecutive runs, each rendered by
/// `format_range`, joined with `", "`. Text without characters has no range.
pub fn unicodes(text: &str) -> (r: Result<String, SubsetError>)
    ensures
        text@.len() == 0 ==> r == Err::<String, SubsetError>(SubsetError::EmptyCharacterSet),
        text@.len() > 0 ==> r is Ok && r->Ok_0@ == unicode_range_text(text@),
{
    let chars = sort_characters(text);
    if chars.len() == 0 {
        proof {
            if text@.len() > 0 {
                assert(text@.contains(text@[0]));
                assert(chars@.contains(text@[0]));
            }
        }
        return Err(SubsetError::EmptyCharacterSet);
    }
    proof {
        if text@.len() == 0 {
            assert(chars@.contains(chars@[0]));
            assert(text@.contains(chars@[0]));
        }
    }
    let ghost cs = chars@;
    let n = chars.len();
    let mut done: Vec<(u32, u32)> = Vec::new();
    let mut start: u32 = chars[0] as u32;
    proof {
        lemma_char_cp_bound(chars@[0]);
        assert(cs.subrange(0, 1).drop_last() =~= seq![]);
    }
    let mut end: u32 = start + 1;
    proof {
        assert(ranges(seq![]) == Seq::<(int, int)>::empty());
        assert(ranges(cs.subrange(0, 1)) =~= seq![(start as int, end as int)]);
        assert(done@.map_values(|p: (u32, u32)| (p.0 as int, p.1 as int)).push(
            (start as int, end as int),
        ) =~= seq![(start as int, end as int)]);
    }
    let mut i: usize = 1;
    while i < n
        invariant
            n == cs.len(),
            cs == chars@,
            1 <= i <= n,
            start < end <= 0x110000,
            ranges(cs.subrange(0, i as int)) == done@.map_values(
                |p: (u32, u32)| (p.0 as int, p.1 as int),
            ).push((start as int, end as int)),
            forall|k: int| 0 <= k < done@.len() ==> (#[trigger] done@[k]).0 <= done@[k].1,
        decreases n - i,
    {
        let c = chars[i] as u32;
        proof {
            lemma_char_cp_bound(chars@[i as int]);
            assert(cs.subrange(0, i + 1).drop_last() =~= cs.subrange(0, i as int));
        }
        let ghost before = done@.map_values(|p: (u32, u32)| (p.0 as int, p.1 as int));
        if c == end {
            end = c + 1;
            assert(ranges(cs.subrange(0, i + 1)) =~= before.push((start as int, end as int)));
        } else {
            done.push((start, end));
            start = c;
            end = c + 1;
            assert(ranges(cs.subrange(0, i + 1)) =~= done@.map_values(
                |p: (u32, u32)| (p.0 as int, p.1 as int),
            ).push((start as int, end as int)));
        }
        i = i + 1;
    }
    done.push((start, end));
    assert(cs.subrange(0, n as int) =~= cs);
    let ghost rs = ranges(cs);
    assert(rs =~= done@.map_values(|p: (u32, u32)| (p.0 as int, p.1 as int)));
    let ghost parts = rs.map_values(|r: (int, int)| range_text(r));
    let mut out = String::new();
    let mut k: usize = 0;
    while k < done.len()
        invariant
            k <= done.len(),
            parts.len() == done@.len(),
            forall|m: int| 0 <= m < done@.len() ==> (#[trigger] done@[m]).0 <= done@[m].1,
            forall|m: int| 0 <= m < done@.len() ==> #[trigger] parts[m] == range_text(
                (done@[m].0 as int, done@[m].1 as int),
            ),
            out@ == joined(parts.subrange(0, k as int), ", "@),
        decreases done.len() - k,
    {
        let (s, e) = done[k];
        let piece = format_range(s, e);
        assert(parts.subrange(0, k + 1).drop_last() =~= parts.subrange(0, k as int));
        if k > 0 {
            out.append(", ");
        }
        out.append(piece.as_str());
        k = k + 1;
    }
    assert(parts.subrange(0, k as int) =~= parts);
    Ok(out)
}

} // verus!
