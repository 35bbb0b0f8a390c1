//! Names derived from user text for exported files.
use vstd::prelude::*;

verus! {

/// Whether `c` is an ASCII letter or digit.
pub open spec fn is_ascii_alnum(c: char) -> bool {
    ('0' <= c && c <= '9') || ('a' <= c && c <= 'z') || ('A' <= c && c <= 'Z')
}

/// `c` with an ASCII capital letter made small.
pub open spec fn ascii_lower(c: char) -> char {
    if 'A' <= c && c <= 'Z' {
        ((c as int) + 32) as char
    } else {
        c
    }
}

fn lower_char(c: char) -> (r: char)
    ensures
        r == ascii_lower(c),
{
    if 'A' <= c && c <= 'Z' {
        let code: u32 = c as u32;
        ((code + 32) as u8) as char
    } else {
        c
    }
}

/// Letters and digits kept (lowercased), every run of other characters
/// made one `-`.
pub open spec fn dashed(s: Seq<char>) -> Seq<char>
    decreases s.len(),
{
    if s.len() == 0 {
        Seq::empty()
    } else {
        let p = dashed(s.drop_last());
        let c = s.last();
        if is_ascii_alnum(c) {
            p.push(ascii_lower(c))
        } else if p.len() > 0 && p.last() == '-' {
            p
        } else {
            p.push('-')
        }
    }
}

/// `s` without `-` at its start.
pub open spec fn strip_leading_dashes(s: Seq<char>) -> Seq<char>
    decreases s.len(),
{
    if s.len() > 0 && s[0] == '-' {
        strip_leading_dashes(s.drop_first())
    } else {
        s
    }
}

/// `s` without `-` at its end.
pub open spec fn strip_trailing_dashes(s: Seq<char>) -> Seq<char>
    decreases s.len(),
{
    if s.len() > 0 && s.last() == '-' {
        strip_trailing_dashes(s.drop_last())
    } else {
        s
    }
}

/// An export prefix from free text: letters and digits lowercased, each
/// run of other characters one `-`, and no `-` at either end.
pub open spec fn export_prefix(s: Seq<char>) -> Seq<char> {
    strip_trailing_dashes(strip_leading_dashes(dashed(s)))
}

/// An export prefix from free text: letters and digits lowercased, each
/// run of other characters one `-`, and no `-` at either end.
pub fn sanitize_export_prefix(value: &str) -> (r: String)
    ensures
        r@ == export_prefix(value@),
{
    let chars = crate::text::chars_of(value);
    let mut out: Vec<char> = Vec::new();
    let mut i: usize = 0;
    assert(chars@.take(0) =~= Seq::<char>::empty());
    while i < chars.len()
        invariant
            i <= chars.len(),
            chars@ == value@,
            out@ == dashed(chars@.take(i as int)),
        decreases chars.len() - i,
    {
        let c = chars[i];
        proof {
            let next = chars@.take(i + 1);
            assert(next.drop_last() =~= chars@.take(i as int));
            assert(next.last() == c);
        }
        if ('0' <= c && c <= '9') || ('a' <= c && c <= 'z') || ('A' <= c && c <= 'Z') {
            out.push(lower_char(c));
        } else if !(out.len() > 0 && out[out.len() - 1] == '-') {
            out.push('-');
        }
        i = i + 1;
    }
    assert(chars@.take(chars.len() as int) =~= chars@);
    let mut start: usize = 0;
    assert(out@.skip(0) =~= out@);
    while start < out.len() && out[start] == '-'
        invariant
            start <= out.len(),
            strip_leading_dashes(out@) == strip_leading_dashes(out@.skip(start as int)),
        decreases out.len() - start,
    {
        proof {
            let t = out@.skip(start as int);
            assert(t.drop_first() =~= out@.skip(start + 1));
        }
        start = start + 1;
    }
    let mut end: usize = out.len();
    let ghost lead = out@.skip(start as int);
    assert(lead.take(lead.len() as int) =~= lead);
    while end > start && out[end - 1] == '-'
        invariant
            start <= end <= out.len(),
            lead == out@.skip(start as int),
            strip_trailing_dashes(lead) == strip_trailing_dashes(lead.take(end - start)),
        decreases end - start,
    {
        proof {
            let t = lead.take(end - start);
            assert(t.drop_last() =~= lead.take(end - 1 - start));
        }
        end = end - 1;
    }
    let kept = crate::text::copy_range(out.as_slice(), start, end);
    proof {
        assert(lead.take(end - start) =~= out@.subrange(start as int, end as int));
        let t = lead.take(end - start);
        assert(!(t.len() > 0 && t.last() == '-'));
        assert(!(lead.len() > 0 && lead[0] == '-'));
    }
    crate::text::string_from_chars(kept.as_slice())
}

/// Whether `c` may stand in an export prefix: a small letter, a digit or
/// `-`.
pub open spec fn prefix_char(c: char) -> bool {
    ('0' <= c && c <= '9') || ('a' <= c && c <= 'z') || c == '-'
}

/// `s` holds only prefix characters and never two `-` in a row.
pub open spec fn clean_prefix_text(s: Seq<char>) -> bool {
    &&& forall|i: int| 0 <= i < s.len() ==> prefix_char(#[trigger] s[i])
    &&& forall|i: int| 0 <= i < s.len() - 1 ==> !(#[trigger] s[i] == '-' && s[i + 1] == '-')
}

proof fn lemma_dashed_clean(s: Seq<char>)
    ensures
        clean_prefix_text(dashed(s)),
    decreases s.len(),
{
    if s.len() > 0 {
        let p = dashed(s.drop_last());
        lemma_dashed_clean(s.drop_last());
        let d = dashed(s);
        let c = s.last();
        if is_ascii_alnum(c) {
            assert(d == p.push(ascii_lower(c)));
            assert forall|i: int| 0 <= i < d.len() implies prefix_char(#[trigger] d[i]) by {
                if i < p.len() {
                    assert(d[i] == p[i]);
                }
            }
            assert forall|i: int| 0 <= i < d.len() - 1 implies !(#[trigger] d[i] == '-' && d[i + 1] == '-') by {
                if i + 1 < p.len() {
                    assert(d[i] == p[i] && d[i + 1] == p[i + 1]);
                }
            }
        } else if !(p.len() > 0 && p.last() == '-') {
            assert(d == p.push('-'));
            assert forall|i: int| 0 <= i < d.len() implies prefix_char(#[trigger] d[i]) by {
                if i < p.len() {
                    assert(d[i] == p[i]);
                }
            }
            assert forall|i: int| 0 <= i < d.len() - 1 implies !(#[trigger] d[i] == '-' && d[i + 1] == '-') by {
                if i + 1 < p.len() {
                    assert(d[i] == p[i] && d[i + 1] == p[i + 1]);
                } else {
                    assert(d[i] == p.last());
                }
            }
        }
    }
}

proof fn lemma_strip_leading_clean(s: Seq<char>)
    requires
        clean_prefix_text(s),
    ensures
        clean_prefix_text(strip_leading_dashes(s)),
        strip_leading_dashes(s).len() == 0 || strip_leading_dashes(s)[0] != '-',
        strip_leading_dashes(s).len() > 0 ==> strip_leading_dashes(s).last() == s.last(),
    decreases s.len(),
{
    if s.len() > 0 && s[0] == '-' {
        let t = s.drop_first();
        assert forall|i: int| 0 <= i < t.len() implies prefix_char(#[trigger] t[i]) by {
            assert(t[i] == s[i + 1]);
        }
        assert forall|i: int| 0 <= i < t.len() - 1 implies !(#[trigger] t[i] == '-' && t[i + 1] == '-') by {
            assert(t[i] == s[i + 1] && t[i + 1] == s[i + 2]);
        }
        lemma_strip_leading_clean(t);
    }
}

proof fn lemma_strip_trailing_clean(s: Seq<char>)
    requires
        clean_prefix_text(s),
        s.len() == 0 || s[0] != '-',
    ensures
        clean_prefix_text(strip_trailing_dashes(s)),
        strip_trailing_dashes(s).len() == 0 || (strip_trailing_dashes(s)[0] != '-'
            && strip_trailing_dashes(s).last() != '-'),
    decreases s.len(),
{
    if s.len() > 0 && s.last() == '-' {
        let t = s.drop_last();
        assert forall|i: int| 0 <= i < t.len() implies prefix_char(#[trigger] t[i]) by {
            assert(t[i] == s[i]);
        }
        assert forall|i: int| 0 <= i < t.len() - 1 implies !(#[trigger] t[i] == '-' && t[i + 1] == '-') by {
            assert(t[i] == s[i] && t[i + 1] == s[i + 1]);
        }
        if t.len() > 0 {
            assert(t[0] == s[0]);
        }
        lemma_strip_trailing_clean(t);
    }
}

/// An export prefix holds only small letters, digits and single `-`
/// between them: no `-` at either end and never two in a row.
pub proof fn lemma_export_prefix_clean(s: Seq<char>)
    ensures
        clean_prefix_text(export_prefix(s)),
        export_prefix(s).len() == 0 || (export_prefix(s)[0] != '-' && export_prefix(s).last() != '-'),
{
    lemma_dashed_clean(s);
    lemma_strip_leading_clean(dashed(s));
    lemma_strip_trailing_clean(strip_leading_dashes(dashed(s)));
}

} // verus!
