use vstd::prelude::*;

verus! {

/// Whether `c` has the Unicode `White_Space` property, which is what
/// `char::is_whitespace` tests and what `str::trim` removes.
pub open spec fn is_ws(c: char) -> bool {
    ||| ('\u{9}' <= c && c <= '\u{d}')
    ||| c == ' '
    ||| c == '\u{85}'
    ||| c == '\u{a0}'
    ||| c == '\u{1680}'
    ||| ('\u{2000}' <= c && c <= '\u{200a}')
    ||| c == '\u{2028}'
    ||| c == '\u{2029}'
    ||| c == '\u{202f}'
    ||| c == '\u{205f}'
    ||| c == '\u{3000}'
}

/// `s` without its leading whitespace.
pub open spec fn trim_start(s: Seq<char>) -> Seq<char>
    decreases s.len(),
{
    if s.len() > 0 && is_ws(s[0]) {
        trim_start(s.drop_first())
    } else {
        s
    }
}

/// `s` without its trailing whitespace.
pub open spec fn trim_end(s: Seq<char>) -> Seq<char>
    decreases s.len(),
{
    if s.len() > 0 && is_ws(s.last()) {
        trim_end(s.drop_last())
    } else {
        s
    }
}

/// `s` without leading and trailing whitespace, as `str::trim` gives it.
pub open spec fn trim(s: Seq<char>) -> Seq<char> {
    trim_end(trim_start(s))
}

/// The index of the first occurrence of `c` in `s`.
pub open spec fn first_index_of(s: Seq<char>, c: char) -> Option<nat>
    decreases s.len(),
{
    if s.len() == 0 {
        None
    } else if s[0] == c {
        Some(0)
    } else {
        match first_index_of(s.drop_first(), c) {
            Some(k) => Some(k + 1),
            None => None,
        }
    }
}

/// A line as `str::lines` yields it: one trailing carriage return is dropped.
pub open spec fn strip_cr(line: Seq<char>) -> Seq<char> {
    if line.len() > 0 && line.last() == '\r' {
        line.drop_last()
    } else {
        line
    }
}

/// The lines of `s` as `str::lines` yields them: split after each `\n`, with
/// the `\n` (and a `\r` before it) removed; a last line without `\n` is kept
/// as it is, and there is no empty last line after a final `\n`.
pub open spec fn lines(s: Seq<char>) -> Seq<Seq<char>>
    decreases s.len(),
{
    if s.len() == 0 {
        Seq::empty()
    } else {
        proof {
            lemma_first_index_bound(s, '\n');
        }
        match first_index_of(s, '\n') {
            None => seq![s],
            Some(k) => seq![strip_cr(s.take(k as int))] + lines(s.skip(k as int + 1)),
        }
    }
}

pub proof fn lemma_first_index_bound(s: Seq<char>, c: char)
    ensures
        first_index_of(s, c) matches Some(k) ==> k < s.len() && s[k as int] == c,
    decreases s.len(),
{
    if s.len() > 0 {
        lemma_first_index_bound(s.drop_first(), c);
    }
}

pub proof fn lemma_first_index_found(s: Seq<char>, c: char, k: int)
    requires
        0 <= k < s.len(),
        s[k] == c,
        forall|j: int| 0 <= j < k ==> s[j] != c,
    ensures
        first_index_of(s, c) == Some(k as nat),
    decreases k,
{
    if k > 0 {
        lemma_first_index_found(s.drop_first(), c, k - 1);
    }
}

pub proof fn lemma_first_index_absent(s: Seq<char>, c: char)
    requires
        forall|j: int| 0 <= j < s.len() ==> s[j] != c,
    ensures
        first_index_of(s, c) is None,
    decreases s.len(),
{
    if s.len() > 0 {
        lemma_first_index_absent(s.drop_first(), c);
    }
}

/// The characters of `s`, in order.
pub fn chars_of(s: &str) -> (v: Vec<char>)
    ensures
        v@ == s@,
{
    let mut v: Vec<char> = Vec::new();
    proof {
        vstd::string::axiom_spec_iter(s);
    }
    for c in it: s.chars()
        invariant
            it.seq() == s@,
            v@ == it.seq().take(it.index() as int),
    {
        v.push(c);
    }
    v
}

/// Collects characters into a `String` (std's `FromIterator<char>` for `String`):
/// the string holds exactly the given characters.
#[verifier::external_body]
pub(crate) fn string_from_chars(v: &[char]) -> (s: String)
    ensures
        s@ == v@,
{
    v.iter().collect::<String>()
}

/// Copies `s[from..to]`.
pub fn copy_range(s: &[char], from: usize, to: usize) -> (r: Vec<char>)
    requires
        from <= to <= s.len(),
    ensures
        r@ == s@.subrange(from as int, to as int),
{
    let mut r: Vec<char> = Vec::new();
    let mut i = from;
    while i < to
        invariant
            from <= i <= to <= s.len(),
            r@ == s@.subrange(from as int, i as int),
        decreases to - i,
    {
        r.push(s[i]);
        i += 1;
    }
    r
}

/// Whether `c` is whitespace (`char::is_whitespace`).
pub fn is_whitespace(c: char) -> (b: bool)
    ensures
        b == is_ws(c),
{
    ('\u{9}' <= c && c <= '\u{d}') || c == ' ' || c == '\u{85}' || c == '\u{a0}' || c
        == '\u{1680}' || ('\u{2000}' <= c && c <= '\u{200a}') || c == '\u{2028}' || c
        == '\u{2029}' || c == '\u{202f}' || c == '\u{205f}' || c == '\u{3000}'
}

proof fn lemma_trim_start_skip(s: Seq<char>, i: int)
    requires
        0 <= i < s.len(),
        is_ws(s[i]),
    ensures
        trim_start(s.skip(i)) == trim_start(s.skip(i + 1)),
{
    assert(s.skip(i).drop_first() =~= s.skip(i + 1));
}

proof fn lemma_trim_end_take(s: Seq<char>, j: int)
    requires
        0 < j <= s.len(),
        is_ws(s[j - 1]),
    ensures
        trim_end(s.take(j)) == trim_end(s.take(j - 1)),
{
    assert(s.take(j).drop_last() =~= s.take(j - 1));
}

/// `s` without leading and trailing whitespace (`str::trim`).
pub fn trim_chars(s: &[char]) -> (r: Vec<char>)
    ensures
        r@ == trim(s@),
{
    let n = s.len();
    let mut i: usize = 0;
    assert(s@.skip(0) =~= s@);
    while i < n && is_whitespace(s[i])
        invariant
            i <= n == s.len(),
            trim_start(s@) == trim_start(s@.skip(i as int)),
        decreases n - i,
    {
        proof {
            lemma_trim_start_skip(s@, i as int);
        }
        i += 1;
    }
    let ghost t = s@.skip(i as int);
    assert(trim_start(s@) == t);
    let mut j: usize = n;
    assert(t.take(t.len() as int) =~= t);
    while j > i && is_whitespace(s[j - 1])
        invariant
            i <= j <= n == s.len(),
            t == s@.skip(i as int),
            trim_end(t) == trim_end(t.take(j - i)),
        decreases j,
    {
        proof {
            lemma_trim_end_take(t, j - i);
        }
        j -= 1;
    }
    assert(t.take(j - i) =~= s@.subrange(i as int, j as int));
    copy_range(s, i, j)
}

/// Whether `a` and `b` hold the same characters.
pub fn chars_eq(a: &[char], b: &[char]) -> (r: bool)
    ensures
        r == (a@ == b@),
{
    if a.len() != b.len() {
        return false;
    }
    let mut i: usize = 0;
    while i < a.len()
        invariant
            a.len() == b.len(),
            i <= a.len(),
            forall|j: int| 0 <= j < i ==> a@[j] == b@[j],
        decreases a.len() - i,
    {
        if a[i] != b[i] {
            return false;
        }
        i += 1;
    }
    assert(a@ =~= b@);
    true
}

/// Whether `s` begins with `p`.
pub fn starts_with(s: &[char], p: &[char]) -> (r: bool)
    ensures
        r == (p@.len() <= s@.len() && s@.take(p@.len() as int) == p@),
{
    if p.len() > s.len() {
        return false;
    }
    let mut i: usize = 0;
    while i < p.len()
        invariant
            p.len() <= s.len(),
            i <= p.len(),
            forall|j: int| 0 <= j < i ==> s@[j] == p@[j],
        decreases p.len() - i,
    {
        if s[i] != p[i] {
            assert(s@.take(p@.len() as int)[i as int] != p@[i as int]);
            return false;
        }
        i += 1;
    }
    assert(s@.take(p@.len() as int) =~= p@);
    true
}

/// The lines of `s` (`str::lines`).
pub fn split_lines(s: &[char]) -> (out: Vec<Vec<char>>)
    ensures
        out@.len() == lines(s@).len(),
        forall|i: int| 0 <= i < out@.len() ==> #[trigger] out@[i]@ == lines(s@)[i],
{
    let n = s.len();
    let mut out: Vec<Vec<char>> = Vec::new();
    let ghost mut done: Seq<Seq<char>> = Seq::empty();
    let mut start: usize = 0;
    assert(s@.skip(0) =~= s@);
    while start < n
        invariant
            start <= n == s.len(),
            out@.len() == done.len(),
            forall|i: int| 0 <= i < out@.len() ==> #[trigger] out@[i]@ == done[i],
            lines(s@) == done + lines(s@.skip(start as int)),
        decreases n - start,
    {
        let ghost rest = s@.skip(start as int);
        let mut k = start;
        while k < n && s[k] != '\n'
            invariant
                start <= k <= n == s.len(),
                rest == s@.skip(start as int),
                forall|j: int| start <= j < k ==> s@[j] != '\n',
            decreases n - k,
        {
            k += 1;
        }
        if k < n {
            proof {
                lemma_first_index_found(rest, '\n', k - start);
                assert(rest.take(k - start) =~= s@.subrange(start as int, k as int));
                assert(rest.skip(k - start + 1) =~= s@.skip(k + 1));
            }
            let mut end = k;
            if end > start && s[end - 1] == '\r' {
                end -= 1;
            }
            let line = copy_range(s, start, end);
            proof {
                assert(line@ == strip_cr(rest.take(k - start)));
                done = done.push(line@);
                assert(seq![strip_cr(rest.take(k - start))] + lines(s@.skip(k + 1)) == lines(
                    rest,
                ));
                assert(done + lines(s@.skip(k + 1)) =~= (done.drop_last() + seq![line@])
                    + lines(s@.skip(k + 1)));
            }
            out.push(line);
            start = k + 1;
        } else {
            proof {
                lemma_first_index_absent(rest, '\n');
                assert(rest =~= s@.subrange(start as int, n as int));
                assert(s@.skip(n as int) =~= Seq::<char>::empty());
            }
            let line = copy_range(s, start, n);
            proof {
                done = done.push(line@);
            }
            out.push(line);
            start = n;
        }
    }
    proof {
        assert(s@.skip(n as int) =~= Seq::<char>::empty());
        assert(done + lines(Seq::<char>::empty()) =~= done);
    }
    out
}


/// The pieces of `s` between occurrences of `sep`, as `str::split` yields
/// them: always at least one, empty pieces kept.
pub open spec fn split_on(s: Seq<char>, sep: char) -> Seq<Seq<char>>
    decreases s.len(),
{
    proof {
        lemma_first_index_bound(s, sep);
    }
    match first_index_of(s, sep) {
        None => seq![s],
        Some(k) => seq![s.take(k as int)] + split_on(s.skip(k as int + 1), sep),
    }
}

/// The pieces of `s` between occurrences of `sep` (`str::split`).
pub fn split_chars(s: &[char], sep: char) -> (out: Vec<Vec<char>>)
    ensures
        out@.len() == split_on(s@, sep).len(),
        forall|i: int| 0 <= i < out@.len() ==> #[trigger] out@[i]@ == split_on(s@, sep)[i],
{
    let n = s.len();
    let mut out: Vec<Vec<char>> = Vec::new();
    let ghost mut done: Seq<Seq<char>> = Seq::empty();
    let mut start: usize = 0;
    assert(s@.skip(0) =~= s@);
    loop
        invariant
            start <= n == s.len(),
            out@.len() == done.len(),
            forall|i: int| 0 <= i < out@.len() ==> #[trigger] out@[i]@ == done[i],
            split_on(s@, sep) == done + split_on(s@.skip(start as int), sep),
        decreases n - start,
    {
        let ghost rest = s@.skip(start as int);
        let mut k = start;
        while k < n && s[k] != sep
            invariant
                start <= k <= n == s.len(),
                rest == s@.skip(start as int),
                forall|j: int| start <= j < k ==> s@[j] != sep,
            decreases n - k,
        {
            k += 1;
        }
        if k < n {
            proof {
                lemma_first_index_found(rest, sep, k - start);
                assert(rest.take(k - start) =~= s@.subrange(start as int, k as int));
                assert(rest.skip(k - start + 1) =~= s@.skip(k + 1));
            }
            let piece = copy_range(s, start, k);
            proof {
                done = done.push(piece@);
                assert(done + split_on(s@.skip(k + 1), sep) =~= (done.drop_last() + seq![piece@])
                    + split_on(s@.skip(k + 1), sep));
            }
            out.push(piece);
            start = k + 1;
        } else {
            proof {
                lemma_first_index_absent(rest, sep);
                assert(rest =~= s@.subrange(start as int, n as int));
            }
            let piece = copy_range(s, start, n);
            proof {
                done = done.push(piece@);
                assert(split_on(s@, sep) =~= done);
            }
            out.push(piece);
            return out;
        }
    }
}

/// Whether `c` is an ASCII decimal digit.
pub open spec fn is_digit(c: char) -> bool {
    '0' <= c && c <= '9'
}

/// The value of the decimal digit `c`.
pub open spec fn digit_val(c: char) -> int {
    (c as int) - ('0' as int)
}

/// Whether every character of `s` is an ASCII decimal digit.
pub open spec fn all_digits(s: Seq<char>) -> bool {
    forall|i: int| 0 <= i < s.len() ==> is_digit(#[trigger] s[i])
}

/// The value of the decimal numeral `s`.
pub open spec fn digits_value(s: Seq<char>) -> int
    decreases s.len(),
{
    if s.len() == 0 {
        0
    } else {
        digits_value(s.drop_last()) * 10 + digit_val(s.last())
    }
}

/// What `str::parse` gives for an integer type whose range is `lo..=hi`
/// (`signed` says whether the type has negative values): an optional `+`
/// (or `-` for a signed type), then one or more ASCII digits, and a value in
/// range; anything else is an error.
pub open spec fn parse_int_spec(s: Seq<char>, signed: bool, lo: int, hi: int) -> Option<int> {
    if s.len() == 0 {
        None
    } else {
        let neg = signed && s[0] == '-';
        let digits = if s[0] == '+' || neg {
            s.drop_first()
        } else {
            s
        };
        if digits.len() == 0 || !all_digits(digits) {
            None
        } else {
            let v = if neg {
                -digits_value(digits)
            } else {
                digits_value(digits)
            };
            if lo <= v && v <= hi {
                Some(v)
            } else {
                None
            }
        }
    }
}

pub proof fn lemma_digits_value_nonneg(s: Seq<char>)
    requires
        all_digits(s),
    ensures
        digits_value(s) >= 0,
    decreases s.len(),
{
    if s.len() > 0 {
        assert(all_digits(s.drop_last()));
        lemma_digits_value_nonneg(s.drop_last());
        assert(is_digit(s[s.len() - 1]));
    }
}

pub proof fn lemma_digits_prefix_le(s: Seq<char>, i: int)
    requires
        all_digits(s),
        0 <= i <= s.len(),
    ensures
        digits_value(s.take(i)) <= digits_value(s),
    decreases s.len() - i,
{
    if i < s.len() {
        lemma_digits_prefix_le(s, i + 1);
        let t = s.take(i + 1);
        assert(t.drop_last() =~= s.take(i));
        assert(all_digits(s.take(i)));
        lemma_digits_value_nonneg(s.take(i));
        assert(is_digit(t.last()));
    } else {
        assert(s.take(i) =~= s);
    }
}

/// Parses an integer the way `str::parse` does for an integer type whose
/// range is `lo..=hi`; `None` is the parse error.
pub fn parse_int(s: &[char], signed: bool, lo: i128, hi: i128) -> (r: Option<i128>)
    requires
        -0x1_0000_0000_0000_0000 <= lo <= hi <= 0x1_0000_0000_0000_0000,
    ensures
        r matches Some(v) ==> parse_int_spec(s@, signed, lo as int, hi as int) == Some(v as int),
        r is None ==> parse_int_spec(s@, signed, lo as int, hi as int) is None,
{
    let n = s.len();
    if n == 0 {
        return None;
    }
    let neg = signed && s[0] == '-';
    let start: usize = if s[0] == '+' || neg {
        1
    } else {
        0
    };
    if start == n {
        assert(s@.drop_first().len() == 0);
        return None;
    }
    let ghost digits = s@.skip(start as int);
    proof {
        if start == 1 {
            assert(digits =~= s@.drop_first());
        } else {
            assert(digits =~= s@);
        }
    }
    let mut mag: i128 = 0;
    let mut i: usize = start;
    assert(digits.take(0) =~= Seq::<char>::empty());
    while i < n
        invariant
            start <= i <= n == s.len(),
            start < n,
            digits == s@.skip(start as int),
            neg == (signed && s@[0] == '-'),
            digits == (if s@[0] == '+' || neg {
                s@.drop_first()
            } else {
                s@
            }),
            digits.len() > 0,
            -0x1_0000_0000_0000_0000 <= lo <= hi <= 0x1_0000_0000_0000_0000,
            forall|j: int| 0 <= j < i - start ==> is_digit(#[trigger] digits[j]),
            mag == digits_value(digits.take(i - start)),
            0 <= mag <= 0x1_0000_0000_0000_0000,
        decreases n - i,
    {
        let c = s[i];
        if !('0' <= c && c <= '9') {
            assert(!is_digit(digits[i - start]));
            return None;
        }
        let d: i128 = (c as u32 - '0' as u32) as i128;
        let ghost before = digits.take(i - start);
        proof {
            assert(digits.take(i - start + 1).drop_last() =~= before);
            assert(digits.take(i - start + 1).last() == c);
        }
        mag = mag * 10 + d;
        i += 1;
        if mag > 0x1_0000_0000_0000_0000 {
            proof {
                if all_digits(digits) {
                    lemma_digits_prefix_le(digits, i - start);
                    assert(digits_value(digits) > 0x1_0000_0000_0000_0000);
                }
            }
            return None;
        }
    }
    proof {
        assert(digits.take(n - start) =~= digits);
        assert(all_digits(digits));
    }
    let v: i128 = if neg {
        -mag
    } else {
        mag
    };
    if lo <= v && v <= hi {
        Some(v)
    } else {
        None
    }
}

/// `s` read as an `i64` (`str::parse`).
pub open spec fn i64_text(s: Seq<char>) -> Option<i64> {
    match parse_int_spec(s, true, i64::MIN as int, i64::MAX as int) {
        Some(v) => Some(v as i64),
        None => None,
    }
}

/// `s` read as an `i32` (`str::parse`).
pub open spec fn i32_text(s: Seq<char>) -> Option<i32> {
    match parse_int_spec(s, true, i32::MIN as int, i32::MAX as int) {
        Some(v) => Some(v as i32),
        None => None,
    }
}

/// `str::parse::<i64>`.
pub fn parse_i64(s: &[char]) -> (r: Option<i64>)
    ensures
        r == i64_text(s@),
        r matches Some(v) ==> parse_int_spec(s@, true, i64::MIN as int, i64::MAX as int) == Some(
            v as int,
        ),
        r is None ==> parse_int_spec(s@, true, i64::MIN as int, i64::MAX as int) is None,
{
    match parse_int(s, true, i64::MIN as i128, i64::MAX as i128) {
        Some(v) => Some(v as i64),
        None => None,
    }
}

/// `str::parse::<i32>`.
pub fn parse_i32(s: &[char]) -> (r: Option<i32>)
    ensures
        r == i32_text(s@),
        r matches Some(v) ==> parse_int_spec(s@, true, i32::MIN as int, i32::MAX as int) == Some(
            v as int,
        ),
        r is None ==> parse_int_spec(s@, true, i32::MIN as int, i32::MAX as int) is None,
{
    match parse_int(s, true, i32::MIN as i128, i32::MAX as i128) {
        Some(v) => Some(v as i32),
        None => None,
    }
}

/// `str::parse::<usize>`.
pub fn parse_usize(s: &[char]) -> (r: Option<usize>)
    ensures
        r matches Some(v) ==> parse_int_spec(s@, false, 0, usize::MAX as int) == Some(v as int),
        r is None ==> parse_int_spec(s@, false, 0, usize::MAX as int) is None,
{
    match parse_int(s, false, 0, usize::MAX as i128) {
        Some(v) => Some(v as usize),
        None => None,
    }
}

/// `str::parse::<u8>`.
pub fn parse_u8(s: &[char]) -> (r: Option<u8>)
    ensures
        r matches Some(v) ==> parse_int_spec(s@, false, 0, 255) == Some(v as int),
        r is None ==> parse_int_spec(s@, false, 0, 255) is None,
{
    match parse_int(s, false, 0, 255) {
        Some(v) => Some(v as u8),
        None => None,
    }
}

/// The first occurrence is preceded by none.
pub proof fn lemma_first_index_min(s: Seq<char>, c: char)
    ensures
        first_index_of(s, c) matches Some(k) ==> forall|j: int| 0 <= j < k ==> s[j] != c,
    decreases s.len(),
{
    if s.len() > 0 {
        lemma_first_index_min(s.drop_first(), c);
        lemma_first_index_bound(s, c);
        if let Some(k) = first_index_of(s, c) {
            if k > 0 {
                assert(s[0] != c);
                assert forall|j: int| 0 <= j < k implies s[j] != c by {
                    if j > 0 {
                        assert(s[j] == s.drop_first()[j - 1]);
                    }
                }
            }
        }
    }
}

/// A character that occurs has a first occurrence.
pub proof fn lemma_first_index_exists(s: Seq<char>, c: char, j: int)
    requires
        0 <= j < s.len(),
        s[j] == c,
    ensures
        first_index_of(s, c) is Some,
    decreases j,
{
    if s[0] != c {
        assert(s.drop_first()[j - 1] == c);
        lemma_first_index_exists(s.drop_first(), c, j - 1);
    }
}

/// Text without the separator splits into itself alone.
pub proof fn lemma_split_on_none(a: Seq<char>, sep: char)
    requires
        forall|i: int| 0 <= i < a.len() ==> a[i] != sep,
    ensures
        split_on(a, sep) == seq![a],
{
    lemma_first_index_absent(a, sep);
}

/// Text without the separator, the separator, then more text: the first
/// piece is that text.
pub proof fn lemma_split_on_cons(a: Seq<char>, rest: Seq<char>, sep: char)
    requires
        forall|i: int| 0 <= i < a.len() ==> a[i] != sep,
    ensures
        split_on(a + seq![sep] + rest, sep) == seq![a] + split_on(rest, sep),
{
    let s = a + seq![sep] + rest;
    assert(s[a.len() as int] == sep);
    assert forall|j: int| 0 <= j < a.len() implies s[j] != sep by {
        assert(s[j] == a[j]);
    }
    lemma_first_index_found(s, sep, a.len() as int);
    assert(s.take(a.len() as int) =~= a);
    assert(s.skip(a.len() as int + 1) =~= rest);
}

/// A line without `\n`, a `\n`, then more text: the first line is that
/// line.
pub proof fn lemma_lines_cons(a: Seq<char>, rest: Seq<char>)
    requires
        forall|i: int| 0 <= i < a.len() ==> a[i] != '\n',
    ensures
        lines(a + seq!['\n'] + rest) == seq![strip_cr(a)] + lines(rest),
{
    let s = a + seq!['\n'] + rest;
    assert(s[a.len() as int] == '\n');
    assert forall|j: int| 0 <= j < a.len() implies s[j] != '\n' by {
        assert(s[j] == a[j]);
    }
    lemma_first_index_found(s, '\n', a.len() as int);
    assert(s.take(a.len() as int) =~= a);
    assert(s.skip(a.len() as int + 1) =~= rest);
}

/// The lines of text that is empty or ends with `\n`, followed by more
/// text, are its lines followed by those of the rest.
pub proof fn lemma_lines_append(x: Seq<char>, y: Seq<char>)
    requires
        x.len() == 0 || x.last() == '\n',
    ensures
        lines(x + y) == lines(x) + lines(y),
    decreases x.len(),
{
    if x.len() == 0 {
        assert(x + y =~= y);
        assert(lines(x) =~= Seq::<Seq<char>>::empty());
        assert(lines(x) + lines(y) =~= lines(y));
    } else {
        lemma_first_index_bound(x, '\n');
        lemma_first_index_min(x, '\n');
        lemma_first_index_exists(x, '\n', x.len() - 1);
        let k = first_index_of(x, '\n').unwrap() as int;
        let s = x + y;
        assert(s[k] == '\n');
        assert forall|j: int| 0 <= j < k implies s[j] != '\n' by {
            assert(s[j] == x[j]);
        }
        lemma_first_index_found(s, '\n', k);
        assert(s.take(k) =~= x.take(k));
        let xr = x.skip(k + 1);
        assert(s.skip(k + 1) =~= xr + y);
        if xr.len() > 0 {
            assert(xr.last() == x.last());
        }
        lemma_lines_append(xr, y);
        assert(lines(s) =~= seq![strip_cr(x.take(k))] + lines(xr + y));
        assert(lines(x) =~= seq![strip_cr(x.take(k))] + lines(xr));
        assert(lines(x + y) =~= lines(x) + lines(y));
    }
}

/// Text, the separator, then text without it: the last piece is that text.
pub proof fn lemma_split_on_snoc(a: Seq<char>, b: Seq<char>, sep: char)
    requires
        forall|i: int| 0 <= i < b.len() ==> b[i] != sep,
    ensures
        split_on(a + seq![sep] + b, sep) == split_on(a, sep).push(b),
    decreases a.len(),
{
    lemma_first_index_bound(a, sep);
    lemma_first_index_min(a, sep);
    match first_index_of(a, sep) {
        None => {
            lemma_first_index_absent_inv(a, sep);
            lemma_split_on_cons(a, b, sep);
            lemma_split_on_none(b, sep);
            assert(seq![a] + seq![b] =~= seq![a].push(b));
        },
        Some(k) => {
            let k = k as int;
            let s = a + seq![sep] + b;
            assert(s[k] == sep);
            assert forall|j: int| 0 <= j < k implies s[j] != sep by {
                assert(s[j] == a[j]);
            }
            lemma_first_index_found(s, sep, k);
            assert(s.take(k) =~= a.take(k));
            let ar = a.skip(k + 1);
            assert(s.skip(k + 1) =~= ar + seq![sep] + b);
            lemma_split_on_snoc(ar, b, sep);
            assert(split_on(s, sep) =~= seq![a.take(k)] + split_on(ar, sep).push(b));
            assert(split_on(a, sep) =~= seq![a.take(k)] + split_on(ar, sep));
            assert(seq![a.take(k)] + split_on(ar, sep).push(b) =~= (seq![a.take(k)] + split_on(ar, sep)).push(b));
        },
    }
}

/// Text whose first occurrence of a character is none holds none.
pub proof fn lemma_first_index_absent_inv(s: Seq<char>, c: char)
    requires
        first_index_of(s, c) is None,
    ensures
        forall|i: int| 0 <= i < s.len() ==> s[i] != c,
{
    assert forall|i: int| 0 <= i < s.len() implies s[i] != c by {
        if s[i] == c {
            lemma_first_index_exists(s, c, i);
        }
    }
}

} // verus!
