//! Bill-of-materials and pick-and-place CSV files: quoting a field where it
//! needs it, splitting a line into fields, writing the rows of a file and
//! reading a file back into rows.
use vstd::prelude::*;
use crate::forward_annotation::texts_view;
use crate::forward_annotation_audit::{by_reference, find_ref, insert_by_reference};
use crate::geometry::PathOrder;
use crate::inventory::{
    InventoryRow, NativeBomRow, NativePnpRow, drifted_refs, lemma_inventory_self_comparison, matched_refs, refs_of,
    unmatched_refs,
};
use crate::tally::text_order;
use crate::render::{int_text, lemma_int_text_chars, lemma_int_text_reads, push_int_text};
use crate::text::{
    chars_eq, chars_of, i32_text, i64_text, is_digit, lemma_lines_append, lemma_lines_cons, lines, parse_i32,
    parse_i64, split_lines, string_from_chars, strip_cr,
};

verus! {

/// A field must be quoted when it holds a comma, a double quote or a line
/// break.
pub open spec fn needs_quotes(s: Seq<char>) -> bool {
    exists|i: int| 0 <= i < s.len() && (s[i] == ',' || s[i] == '"' || s[i] == '\n')
}

/// `s` with each double quote doubled.
pub open spec fn double_quotes(s: Seq<char>) -> Seq<char>
    decreases s.len(),
{
    if s.len() == 0 {
        Seq::empty()
    } else if s[0] == '"' {
        seq!['"', '"'] + double_quotes(s.drop_first())
    } else {
        seq![s[0]] + double_quotes(s.drop_first())
    }
}

/// A field as a CSV file holds it: as it is, or in double quotes with its
/// double quotes doubled when it needs quoting.
pub open spec fn csv_field(s: Seq<char>) -> Seq<char> {
    if needs_quotes(s) {
        seq!['"'] + double_quotes(s) + seq!['"']
    } else {
        s
    }
}

/// The fields joined by commas.
pub open spec fn csv_row(fields: Seq<Seq<char>>) -> Seq<char>
    decreases fields.len(),
{
    if fields.len() <= 1 {
        if fields.len() == 0 {
            Seq::empty()
        } else {
            fields[0]
        }
    } else {
        csv_row(fields.drop_last()) + seq![','] + fields.last()
    }
}

/// Reads the rest `s` of a line: `quoted` says whether a quoted stretch is
/// open, `cur` is the field read so far and `done` the fields before it. A
/// double quote opens or closes a quoted stretch, and two of them inside one
/// stand for one; a comma outside quotes ends a field. A line that ends
/// inside quotes is refused (`None`).
pub open spec fn csv_scan(s: Seq<char>, quoted: bool, cur: Seq<char>, done: Seq<Seq<char>>) -> Option<
    Seq<Seq<char>>,
>
    decreases s.len(),
{
    if s.len() == 0 {
        if quoted {
            None
        } else {
            Some(done.push(cur))
        }
    } else if s[0] == '"' && quoted && s.len() > 1 && s[1] == '"' {
        csv_scan(s.skip(2), true, cur.push('"'), done)
    } else if s[0] == '"' {
        csv_scan(s.skip(1), !quoted, cur, done)
    } else if s[0] == ',' && !quoted {
        csv_scan(s.skip(1), false, Seq::empty(), done.push(cur))
    } else {
        csv_scan(s.skip(1), quoted, cur.push(s[0]), done)
    }
}

/// The fields of a CSV line, or `None` when a quoted field is not closed.
pub open spec fn csv_fields(line: Seq<char>) -> Option<Seq<Seq<char>>> {
    csv_scan(line, false, Seq::empty(), Seq::empty())
}

/// The texts of character vectors.
pub open spec fn chars_view(v: Seq<Vec<char>>) -> Seq<Seq<char>> {
    Seq::new(v.len(), |i: int| v[i]@)
}

fn push_csv_field(out: &mut Vec<char>, s: &[char])
    ensures
        final(out)@ == old(out)@ + csv_field(s@),
{
    let mut quote = false;
    let mut i: usize = 0;
    while i < s.len()
        invariant
            i <= s.len(),
            quote <==> exists|j: int| 0 <= j < i && (s@[j] == ',' || s@[j] == '"' || s@[j] == '\n'),
        decreases s.len() - i,
    {
        if s[i] == ',' || s[i] == '"' || s[i] == '\n' {
            quote = true;
        }
        i = i + 1;
    }
    if !quote {
        let mut k: usize = 0;
        let ghost base = out@;
        while k < s.len()
            invariant
                k <= s.len(),
                out@ == base + s@.take(k as int),
            decreases s.len() - k,
        {
            out.push(s[k]);
            assert(s@.take(k + 1) =~= s@.take(k as int).push(s@[k as int]));
            k = k + 1;
        }
        assert(s@.take(s.len() as int) =~= s@);
        return;
    }
    let ghost base = out@;
    out.push('"');
    let mut k: usize = 0;
    assert(s@.take(0) =~= Seq::<char>::empty());
    while k < s.len()
        invariant
            k <= s.len(),
            out@ == base + seq!['"'] + double_quotes(s@.take(k as int)),
        decreases s.len() - k,
    {
        proof {
            lemma_double_quotes_push(s@.take(k as int), s@[k as int]);
            assert(s@.take(k + 1) =~= s@.take(k as int).push(s@[k as int]));
        }
        if s[k] == '"' {
            out.push('"');
            out.push('"');
        } else {
            out.push(s[k]);
        }
        k = k + 1;
    }
    assert(s@.take(s.len() as int) =~= s@);
    out.push('"');
    assert(out@ =~= old(out)@ + csv_field(s@));
}

proof fn lemma_double_quotes_push(s: Seq<char>, c: char)
    ensures
        double_quotes(s.push(c)) == double_quotes(s) + if c == '"' {
            seq!['"', '"']
        } else {
            seq![c]
        },
    decreases s.len(),
{
    if s.len() == 0 {
        assert(s.push(c).drop_first() =~= Seq::<char>::empty());
        assert(double_quotes(Seq::<char>::empty()) =~= Seq::<char>::empty());
        assert(s.push(c)[0] == c);
    } else {
        lemma_double_quotes_push(s.drop_first(), c);
        assert(s.push(c).drop_first() =~= s.drop_first().push(c));
        assert(s.push(c)[0] == s[0]);
    }
}

/// `value` as a CSV field: quoted, with its double quotes doubled, when it
/// holds a comma, a double quote or a line break; as it is otherwise.
pub fn csv_escape(value: &str) -> (r: String)
    ensures
        r@ == csv_field(value@),
{
    let v = chars_of(value);
    let mut out: Vec<char> = Vec::new();
    push_csv_field(&mut out, v.as_slice());
    assert(out@ =~= csv_field(value@));
    string_from_chars(out.as_slice())
}

fn scan_csv_line(s: &[char]) -> (r: Option<Vec<Vec<char>>>)
    ensures
        match csv_fields(s@) {
            None => r is None,
            Some(fs) => r is Some && chars_view(r.unwrap()@) == fs,
        },
{
    let mut i: usize = 0;
    let mut quoted = false;
    let mut cur: Vec<char> = Vec::new();
    let mut done: Vec<Vec<char>> = Vec::new();
    assert(s@.skip(0) =~= s@);
    assert(chars_view(done@) =~= Seq::<Seq<char>>::empty());
    while i < s.len()
        invariant
            i <= s.len(),
            csv_fields(s@) == csv_scan(s@.skip(i as int), quoted, cur@, chars_view(done@)),
        decreases s.len() - i,
    {
        let ghost rest = s@.skip(i as int);
        assert(rest[0] == s@[i as int]);
        if s[i] == '"' && quoted && i + 1 < s.len() && s[i + 1] == '"' {
            assert(rest[1] == s@[i + 1]);
            assert(rest.skip(2) =~= s@.skip(i + 2));
            cur.push('"');
            i = i + 2;
        } else if s[i] == '"' {
            assert(rest.skip(1) =~= s@.skip(i + 1));
            quoted = !quoted;
            i = i + 1;
        } else if s[i] == ',' && !quoted {
            assert(rest.skip(1) =~= s@.skip(i + 1));
            let ghost before = chars_view(done@);
            let field = cur;
            cur = Vec::new();
            let ghost fv = field@;
            done.push(field);
            assert(chars_view(done@) =~= before.push(fv));
            assert(cur@ =~= Seq::<char>::empty());
            i = i + 1;
        } else {
            assert(rest.skip(1) =~= s@.skip(i + 1));
            cur.push(s[i]);
            i = i + 1;
        }
    }
    assert(s@.skip(i as int) =~= Seq::<char>::empty());
    if quoted {
        return None;
    }
    let ghost before = chars_view(done@);
    let ghost fv = cur@;
    done.push(cur);
    assert(chars_view(done@) =~= before.push(fv));
    Some(done)
}

/// The fields of a CSV line: commas outside double quotes separate fields,
/// double quotes open and close quoted stretches, and two double quotes
/// inside one stand for one; `None` when the line ends inside quotes.
pub fn parse_csv_line(line: &str) -> (r: Option<Vec<String>>)
    ensures
        match csv_fields(line@) {
            None => r is None,
            Some(fs) => r is Some && texts_view(r.unwrap()@) == fs,
        },
{
    let s = chars_of(line);
    match scan_csv_line(s.as_slice()) {
        None => None,
        Some(fs) => {
            let mut out: Vec<String> = Vec::new();
            let mut k: usize = 0;
            while k < fs.len()
                invariant
                    k <= fs@.len(),
                    out@.len() == k,
                    forall|j: int| 0 <= j < k ==> #[trigger] out@[j]@ == fs@[j]@,
                decreases fs.len() - k,
            {
                out.push(string_from_chars(fs[k].as_slice()));
                k = k + 1;
            }
            assert(texts_view(out@) =~= chars_view(fs@));
            Some(out)
        },
    }
}

proof fn lemma_scan_plain(u: Seq<char>, t: Seq<char>, cur: Seq<char>, done: Seq<Seq<char>>)
    requires
        forall|i: int| 0 <= i < u.len() ==> u[i] != '"' && u[i] != ',',
    ensures
        csv_scan(u + t, false, cur, done) == csv_scan(t, false, cur + u, done),
    decreases u.len(),
{
    if u.len() == 0 {
        assert(u + t =~= t);
        assert(cur + u =~= cur);
    } else {
        let s = u + t;
        assert(s[0] == u[0]);
        assert(s.skip(1) =~= u.drop_first() + t);
        lemma_scan_plain(u.drop_first(), t, cur.push(u[0]), done);
        assert(cur.push(u[0]) + u.drop_first() =~= cur + u);
    }
}

proof fn lemma_scan_quoted(u: Seq<char>, t: Seq<char>, cur: Seq<char>, done: Seq<Seq<char>>)
    requires
        t.len() == 0 || t[0] == ',',
    ensures
        csv_scan(double_quotes(u) + seq!['"'] + t, true, cur, done) == csv_scan(t, false, cur + u, done),
    decreases u.len(),
{
    let s = double_quotes(u) + seq!['"'] + t;
    if u.len() == 0 {
        assert(double_quotes(u) =~= Seq::<char>::empty());
        assert(s =~= seq!['"'] + t);
        assert(s.skip(1) =~= t);
        assert(cur + u =~= cur);
        if s.len() > 1 {
            assert(s[1] == t[0]);
        }
    } else if u[0] == '"' {
        let rest = u.drop_first();
        assert(s =~= seq!['"', '"'] + (double_quotes(rest) + seq!['"'] + t));
        assert(s.skip(2) =~= double_quotes(rest) + seq!['"'] + t);
        lemma_scan_quoted(rest, t, cur.push('"'), done);
        assert(cur.push('"') + rest =~= cur + u);
    } else {
        let rest = u.drop_first();
        assert(s =~= seq![u[0]] + (double_quotes(rest) + seq!['"'] + t));
        assert(s.skip(1) =~= double_quotes(rest) + seq!['"'] + t);
        lemma_scan_quoted(rest, t, cur.push(u[0]), done);
        assert(cur.push(u[0]) + rest =~= cur + u);
    }
}

proof fn lemma_scan_field(f: Seq<char>, t: Seq<char>, done: Seq<Seq<char>>)
    requires
        t.len() == 0 || t[0] == ',',
    ensures
        csv_scan(csv_field(f) + t, false, Seq::empty(), done) == csv_scan(t, false, f, done),
{
    if needs_quotes(f) {
        let s = csv_field(f) + t;
        assert(s =~= seq!['"'] + (double_quotes(f) + seq!['"'] + t));
        assert(s.skip(1) =~= double_quotes(f) + seq!['"'] + t);
        lemma_scan_quoted(f, t, Seq::empty(), done);
        assert(Seq::<char>::empty() + f =~= f);
    } else {
        assert forall|i: int| 0 <= i < f.len() implies f[i] != '"' && f[i] != ',' by {
            if f[i] == '"' || f[i] == ',' {
                assert(needs_quotes(f));
            }
        }
        lemma_scan_plain(f, t, Seq::empty(), done);
        assert(Seq::<char>::empty() + f =~= f);
    }
}

/// The fields as written, each by `csv_field`.
pub open spec fn csv_fields_written(fields: Seq<Seq<char>>) -> Seq<Seq<char>> {
    Seq::new(fields.len(), |i: int| csv_field(fields[i]))
}

proof fn lemma_scan_row(fields: Seq<Seq<char>>, t: Seq<char>, done: Seq<Seq<char>>)
    requires
        fields.len() >= 1,
        t.len() == 0 || t[0] == ',',
    ensures
        csv_scan(csv_row(csv_fields_written(fields)) + t, false, Seq::empty(), done) == csv_scan(
            t,
            false,
            fields.last(),
            done + fields.drop_last(),
        ),
    decreases fields.len(),
{
    let w = csv_fields_written(fields);
    if fields.len() == 1 {
        assert(csv_row(w) == w[0]);
        lemma_scan_field(fields[0], t, done);
        assert(done + fields.drop_last() =~= done);
    } else {
        let init = fields.drop_last();
        assert(csv_fields_written(init) =~= w.drop_last());
        assert(csv_row(w) == csv_row(w.drop_last()) + seq![','] + w.last());
        let t2 = seq![','] + csv_field(fields.last()) + t;
        assert(csv_row(w) + t =~= csv_row(csv_fields_written(init)) + t2);
        lemma_scan_row(init, t2, done);
        assert(t2.skip(1) =~= csv_field(fields.last()) + t);
        lemma_scan_field(fields.last(), t, done + init.drop_last() + seq![init.last()]);
        assert(done + init.drop_last() + seq![init.last()] =~= done + init);
        assert((done + init.drop_last()).push(init.last()) =~= done + init);
    }
}

/// A line written from fields, each quoted where it needs it, reads back
/// as those fields.
pub proof fn lemma_csv_line_reads_back(fields: Seq<Seq<char>>)
    requires
        fields.len() >= 1,
    ensures
        csv_fields(csv_row(csv_fields_written(fields))) == Some(fields),
{
    lemma_scan_row(fields, Seq::empty(), Seq::empty());
    assert(csv_row(csv_fields_written(fields)) + Seq::<char>::empty() =~= csv_row(csv_fields_written(fields)));
    assert((Seq::<Seq<char>>::empty() + fields.drop_last()).push(fields.last()) =~= fields);
}

/// `true` or `false`, as `Display` writes a `bool`.
pub open spec fn bool_text(b: bool) -> Seq<char> {
    if b {
        seq!['t', 'r', 'u', 'e']
    } else {
        seq!['f', 'a', 'l', 's', 'e']
    }
}

/// `s` read as a `bool` (`str::parse`): exactly `true` or `false`.
pub open spec fn bool_parsed(s: Seq<char>) -> Option<bool> {
    if s == bool_text(true) {
        Some(true)
    } else if s == bool_text(false) {
        Some(false)
    } else {
        None
    }
}

fn parse_bool(s: &[char]) -> (r: Option<bool>)
    ensures
        r == bool_parsed(s@),
{
    if chars_eq(s, &['t', 'r', 'u', 'e']) {
        assert(s@ =~= bool_text(true));
        Some(true)
    } else if chars_eq(s, &['f', 'a', 'l', 's', 'e']) {
        assert(s@ =~= bool_text(false));
        Some(false)
    } else {
        proof {
            if s@ == bool_text(true) {
                assert(s@ =~= seq!['t', 'r', 'u', 'e']);
            }
            if s@ == bool_text(false) {
                assert(s@ =~= seq!['f', 'a', 'l', 's', 'e']);
            }
        }
        None
    }
}

fn push_csv_row(out: &mut Vec<char>, fields: &Vec<Vec<char>>)
    requires
        fields@.len() >= 1,
    ensures
        final(out)@ == old(out)@ + csv_row(chars_view(fields@)),
{
    let ghost base = old(out)@;
    let ghost fs = chars_view(fields@);
    let mut k: usize = 0;
    while k < fields[0].len()
        invariant
            k <= fields@[0]@.len(),
            fields@.len() >= 1,
            out@ == base + fields@[0]@.take(k as int),
        decreases fields@[0]@.len() - k,
    {
        out.push(fields[0][k]);
        assert(fields@[0]@.take(k + 1) =~= fields@[0]@.take(k as int).push(fields@[0]@[k as int]));
        k = k + 1;
    }
    assert(fields@[0]@.take(fields@[0]@.len() as int) =~= fields@[0]@);
    assert(csv_row(fs.take(1)) == fs.take(1)[0]);
    let mut j: usize = 1;
    while j < fields.len()
        invariant
            1 <= j <= fields@.len(),
            fs == chars_view(fields@),
            out@ == base + csv_row(fs.take(j as int)),
        decreases fields@.len() - j,
    {
        let ghost mid = out@;
        out.push(',');
        let mut k: usize = 0;
        while k < fields[j].len()
            invariant
                j < fields@.len(),
                k <= fields@[j as int]@.len(),
                out@ == mid + seq![','] + fields@[j as int]@.take(k as int),
            decreases fields@[j as int]@.len() - k,
        {
            out.push(fields[j][k]);
            assert(fields@[j as int]@.take(k + 1) =~= fields@[j as int]@.take(k as int).push(
                fields@[j as int]@[k as int],
            ));
            k = k + 1;
        }
        proof {
            assert(fields@[j as int]@.take(fields@[j as int]@.len() as int) =~= fields@[j as int]@);
            let t = fs.take(j + 1);
            assert(t.drop_last() =~= fs.take(j as int));
            assert(t.last() == fields@[j as int]@);
            assert(out@ =~= base + csv_row(t));
        }
        j = j + 1;
    }
    assert(fs.take(fields@.len() as int) =~= fs);
}

fn text_field(s: &String) -> (v: Vec<char>)
    ensures
        v@ == csv_field(s@),
{
    let c = chars_of(s.as_str());
    let mut out: Vec<char> = Vec::new();
    push_csv_field(&mut out, c.as_slice());
    assert(out@ =~= csv_field(s@));
    out
}

fn int_field(n: i64) -> (v: Vec<char>)
    ensures
        v@ == int_text(n as int),
{
    let mut out: Vec<char> = Vec::new();
    push_int_text(&mut out, n);
    assert(out@ =~= int_text(n as int));
    out
}

fn bool_field(b: bool) -> (v: Vec<char>)
    ensures
        v@ == bool_text(b),
{
    let mut out: Vec<char> = Vec::new();
    if b {
        out.push('t');
        out.push('r');
        out.push('u');
        out.push('e');
    } else {
        out.push('f');
        out.push('a');
        out.push('l');
        out.push('s');
        out.push('e');
    }
    assert(out@ =~= bool_text(b));
    out
}

/// The header line of a bill-of-materials file.
pub open spec fn bom_csv_header() -> Seq<char> {
    seq![
        'r', 'e', 'f', 'e', 'r', 'e', 'n', 'c', 'e', ',', 'v', 'a', 'l', 'u', 'e', ',', 'p', 'a', 'r', 't', '_',
        'u', 'u', 'i', 'd', ',', 'p', 'a', 'c', 'k', 'a', 'g', 'e', '_', 'u', 'u', 'i', 'd', ',', 'l', 'a', 'y',
        'e', 'r', ',', 'x', '_', 'n', 'm', ',', 'y', '_', 'n', 'm', ',', 'r', 'o', 't', 'a', 't', 'i', 'o', 'n',
        '_', 'd', 'e', 'g', ',', 'l', 'o', 'c', 'k', 'e', 'd',
    ]
}

/// A bill-of-materials row's fields as text, in file order.
pub open spec fn bom_text_fields(r: NativeBomRow) -> Seq<Seq<char>> {
    seq![
        r.reference@,
        r.value@,
        r.part_uuid@,
        r.package_uuid@,
        int_text(r.layer as int),
        int_text(r.x_nm as int),
        int_text(r.y_nm as int),
        int_text(r.rotation_deg as int),
        bool_text(r.locked),
    ]
}

/// A bill-of-materials row's fields as the file holds them: the reference,
/// value and UUIDs quoted where they need it, the numbers and the lock flag
/// as they are written.
pub open spec fn bom_written_fields(r: NativeBomRow) -> Seq<Seq<char>> {
    seq![
        csv_field(r.reference@),
        csv_field(r.value@),
        csv_field(r.part_uuid@),
        csv_field(r.package_uuid@),
        int_text(r.layer as int),
        int_text(r.x_nm as int),
        int_text(r.y_nm as int),
        int_text(r.rotation_deg as int),
        bool_text(r.locked),
    ]
}

/// The lines of the rows, each ended by a line break.
pub open spec fn bom_lines_text(rows: Seq<NativeBomRow>) -> Seq<char>
    decreases rows.len(),
{
    if rows.len() == 0 {
        Seq::empty()
    } else {
        bom_lines_text(rows.drop_last()) + csv_row(bom_written_fields(rows.last())) + seq!['\n']
    }
}

/// A bill-of-materials file: the header line, then a line per row.
pub open spec fn bom_csv_text(rows: Seq<NativeBomRow>) -> Seq<char> {
    bom_csv_header() + seq!['\n'] + bom_lines_text(rows)
}

fn bom_row_chars(r: &NativeBomRow) -> (v: Vec<char>)
    ensures
        v@ == csv_row(bom_written_fields(*r)),
{
    let mut fields: Vec<Vec<char>> = Vec::new();
    fields.push(text_field(&r.reference));
    fields.push(text_field(&r.value));
    fields.push(text_field(&r.part_uuid));
    fields.push(text_field(&r.package_uuid));
    fields.push(int_field(r.layer as i64));
    fields.push(int_field(r.x_nm));
    fields.push(int_field(r.y_nm));
    fields.push(int_field(r.rotation_deg as i64));
    fields.push(bool_field(r.locked));
    assert(chars_view(fields@) =~= bom_written_fields(*r));
    let mut out: Vec<char> = Vec::new();
    push_csv_row(&mut out, &fields);
    assert(out@ =~= csv_row(bom_written_fields(*r)));
    out
}

/// The bill-of-materials file of the rows: the header line, then one line
/// per row with the reference, value, part and package UUIDs, layer,
/// position, rotation and lock flag, the texts quoted where they need it.
pub fn render_native_project_bom_csv(rows: &[NativeBomRow]) -> (r: String)
    ensures
        r@ == bom_csv_text(rows@),
{
    let mut out: Vec<char> = Vec::new();
    let header = [
        'r', 'e', 'f', 'e', 'r', 'e', 'n', 'c', 'e', ',', 'v', 'a', 'l', 'u', 'e', ',', 'p', 'a', 'r', 't', '_',
        'u', 'u', 'i', 'd', ',', 'p', 'a', 'c', 'k', 'a', 'g', 'e', '_', 'u', 'u', 'i', 'd', ',', 'l', 'a', 'y',
        'e', 'r', ',', 'x', '_', 'n', 'm', ',', 'y', '_', 'n', 'm', ',', 'r', 'o', 't', 'a', 't', 'i', 'o', 'n',
        '_', 'd', 'e', 'g', ',', 'l', 'o', 'c', 'k', 'e', 'd', '\n',
    ];
    let mut h: usize = 0;
    while h < header.len()
        invariant
            h <= header@.len(),
            out@ == header@.take(h as int),
        decreases header@.len() - h,
    {
        out.push(header[h]);
        assert(header@.take(h + 1) =~= header@.take(h as int).push(header@[h as int]));
        h = h + 1;
    }
    assert(out@ =~= bom_csv_header() + seq!['\n']);
    let mut i: usize = 0;
    assert(rows@.take(0) =~= Seq::<NativeBomRow>::empty());
    while i < rows.len()
        invariant
            i <= rows@.len(),
            out@ == bom_csv_header() + seq!['\n'] + bom_lines_text(rows@.take(i as int)),
        decreases rows@.len() - i,
    {
        let line = bom_row_chars(&rows[i]);
        let mut k: usize = 0;
        let ghost mid = out@;
        while k < line.len()
            invariant
                k <= line@.len(),
                out@ == mid + line@.take(k as int),
            decreases line@.len() - k,
        {
            out.push(line[k]);
            assert(line@.take(k + 1) =~= line@.take(k as int).push(line@[k as int]));
            k = k + 1;
        }
        out.push('\n');
        proof {
            assert(line@.take(line@.len() as int) =~= line@);
            let t = rows@.take(i + 1);
            assert(t.drop_last() =~= rows@.take(i as int));
            assert(t.last() == rows@[i as int]);
            assert(out@ =~= bom_csv_header() + seq!['\n'] + bom_lines_text(t));
        }
        i = i + 1;
    }
    assert(rows@.take(rows@.len() as int) =~= rows@);
    string_from_chars(out.as_slice())
}

/// A column of an inventory row that must read as a number or a flag.
#[derive(Debug, Clone, Copy, PartialEq, Eq, Structural)]
pub enum InventoryColumn {
    Layer,
    XNm,
    YNm,
    RotationDeg,
    Locked,
}

/// Why an inventory CSV file is refused.
#[derive(Debug, Clone, Copy, PartialEq, Eq, Structural)]
pub enum InventoryCsvError {
    /// The file has no line.
    MissingHeader,
    /// The first line is not the file's header.
    UnexpectedHeader,
    /// A row ends inside a quoted field.
    MalformedRow,
    /// A row does not have the file's number of columns.
    ColumnCount,
    /// A column does not read as what it holds.
    InvalidField { column: InventoryColumn },
}

/// A bill-of-materials row as plain values: reference, value, part and
/// package UUID texts, layer, position, rotation and lock flag.
pub type BomView = (Seq<char>, Seq<char>, Seq<char>, Seq<char>, i32, i64, i64, i32, bool);

/// The plain values of a bill-of-materials row.
pub open spec fn bom_view(r: NativeBomRow) -> BomView {
    (r.reference@, r.value@, r.part_uuid@, r.package_uuid@, r.layer, r.x_nm, r.y_nm, r.rotation_deg, r.locked)
}

/// The plain values of the rows.
pub open spec fn bom_views(rows: Seq<NativeBomRow>) -> Seq<BomView> {
    Seq::new(rows.len(), |i: int| bom_view(rows[i]))
}

/// A row of nine fields read, or the first of layer, x, y, rotation and
/// lock flag, in that order, that does not read.
pub open spec fn bom_row_of(f: Seq<Seq<char>>) -> Result<BomView, InventoryColumn> {
    match i32_text(f[4]) {
        None => Err(InventoryColumn::Layer),
        Some(layer) => match i64_text(f[5]) {
            None => Err(InventoryColumn::XNm),
            Some(x) => match i64_text(f[6]) {
                None => Err(InventoryColumn::YNm),
                Some(y) => match i32_text(f[7]) {
                    None => Err(InventoryColumn::RotationDeg),
                    Some(rot) => match bool_parsed(f[8]) {
                        None => Err(InventoryColumn::Locked),
                        Some(locked) => Ok((f[0], f[1], f[2], f[3], layer, x, y, rot, locked)),
                    },
                },
            },
        },
    }
}

/// The rows of the lines after the header, in order: empty lines are
/// skipped, every other line must split into nine readable fields.
pub open spec fn bom_rows_of(body: Seq<Seq<char>>) -> Result<Seq<BomView>, InventoryCsvError>
    decreases body.len(),
{
    if body.len() == 0 {
        Ok(Seq::empty())
    } else {
        match bom_rows_of(body.drop_last()) {
            Err(e) => Err(e),
            Ok(prev) => {
                let line = body.last();
                if line.len() == 0 {
                    Ok(prev)
                } else {
                    match csv_fields(line) {
                        None => Err(InventoryCsvError::MalformedRow),
                        Some(f) => if f.len() != 9 {
                            Err(InventoryCsvError::ColumnCount)
                        } else {
                            match bom_row_of(f) {
                                Err(c) => Err(InventoryCsvError::InvalidField { column: c }),
                                Ok(v) => Ok(prev.push(v)),
                            }
                        },
                    }
                }
            },
        }
    }
}

/// A bill-of-materials file read: its first line must be the header, the
/// rest are rows.
pub open spec fn bom_csv_of(contents: Seq<char>) -> Result<Seq<BomView>, InventoryCsvError> {
    let ls = lines(contents);
    if ls.len() == 0 {
        Err(InventoryCsvError::MissingHeader)
    } else if ls[0] != bom_csv_header() {
        Err(InventoryCsvError::UnexpectedHeader)
    } else {
        bom_rows_of(ls.skip(1))
    }
}

fn bom_row_from_fields(f: &Vec<Vec<char>>) -> (r: Result<NativeBomRow, InventoryColumn>)
    requires
        f@.len() == 9,
    ensures
        match bom_row_of(chars_view(f@)) {
            Ok(v) => r is Ok && bom_view(r.unwrap()) == v,
            Err(c) => r == Err::<NativeBomRow, InventoryColumn>(c),
        },
{
    let ghost fs = chars_view(f@);
    assert(fs[4] == f@[4]@ && fs[5] == f@[5]@ && fs[6] == f@[6]@ && fs[7] == f@[7]@ && fs[8] == f@[8]@);
    assert(fs[0] == f@[0]@ && fs[1] == f@[1]@ && fs[2] == f@[2]@ && fs[3] == f@[3]@);
    let layer = match parse_i32(f[4].as_slice()) {
        Some(v) => v,
        None => { return Err(InventoryColumn::Layer); },
    };
    let x_nm = match parse_i64(f[5].as_slice()) {
        Some(v) => v,
        None => { return Err(InventoryColumn::XNm); },
    };
    let y_nm = match parse_i64(f[6].as_slice()) {
        Some(v) => v,
        None => { return Err(InventoryColumn::YNm); },
    };
    let rotation_deg = match parse_i32(f[7].as_slice()) {
        Some(v) => v,
        None => { return Err(InventoryColumn::RotationDeg); },
    };
    let locked = match parse_bool(f[8].as_slice()) {
        Some(v) => v,
        None => { return Err(InventoryColumn::Locked); },
    };
    Ok(NativeBomRow {
        reference: string_from_chars(f[0].as_slice()),
        value: string_from_chars(f[1].as_slice()),
        part_uuid: string_from_chars(f[2].as_slice()),
        package_uuid: string_from_chars(f[3].as_slice()),
        layer,
        x_nm,
        y_nm,
        rotation_deg,
        locked,
    })
}

proof fn lemma_bom_error_persists(body: Seq<Seq<char>>, i: int)
    requires
        0 <= i <= body.len(),
        bom_rows_of(body.take(i)) is Err,
    ensures
        bom_rows_of(body) == bom_rows_of(body.take(i)),
    decreases body.len() - i,
{
    if i < body.len() {
        assert(body.take(i + 1).drop_last() =~= body.take(i));
        lemma_bom_error_persists(body, i + 1);
    } else {
        assert(body.take(i) =~= body);
    }
}

/// The rows of a bill-of-materials file, in order: the first line must be
/// the header, empty lines are skipped, and every other line must split into
/// nine fields whose layer, position, rotation and lock flag read.
pub fn parse_bom_csv(contents: &str) -> (r: Result<Vec<NativeBomRow>, InventoryCsvError>)
    ensures
        match bom_csv_of(contents@) {
            Ok(vs) => r is Ok && bom_views(r.unwrap()@) == vs,
            Err(e) => r == Err::<Vec<NativeBomRow>, InventoryCsvError>(e),
        },
{
    let text = chars_of(contents);
    let ls = split_lines(text.as_slice());
    let ghost sl = lines(contents@);
    if ls.len() == 0 {
        return Err(InventoryCsvError::MissingHeader);
    }
    let header_ok = chars_eq(
        ls[0].as_slice(),
        &[
            'r', 'e', 'f', 'e', 'r', 'e', 'n', 'c', 'e', ',', 'v', 'a', 'l', 'u', 'e', ',', 'p', 'a', 'r', 't',
            '_', 'u', 'u', 'i', 'd', ',', 'p', 'a', 'c', 'k', 'a', 'g', 'e', '_', 'u', 'u', 'i', 'd', ',', 'l',
            'a', 'y', 'e', 'r', ',', 'x', '_', 'n', 'm', ',', 'y', '_', 'n', 'm', ',', 'r', 'o', 't', 'a', 't',
            'i', 'o', 'n', '_', 'd', 'e', 'g', ',', 'l', 'o', 'c', 'k', 'e', 'd',
        ],
    );
    assert(ls@[0]@ == sl[0]);
    if !header_ok {
        proof {
            if sl[0] == bom_csv_header() {
                assert(false);
            }
        }
        return Err(InventoryCsvError::UnexpectedHeader);
    }
    let ghost body = sl.skip(1);
    let mut rows: Vec<NativeBomRow> = Vec::new();
    let mut i: usize = 1;
    assert(body.take(0) =~= Seq::<Seq<char>>::empty());
    assert(bom_views(rows@) =~= Seq::<BomView>::empty());
    while i < ls.len()
        invariant
            1 <= i <= ls@.len(),
            ls@.len() == sl.len(),
            forall|k: int| 0 <= k < ls@.len() ==> #[trigger] ls@[k]@ == sl[k],
            body == sl.skip(1),
            sl == lines(contents@),
            bom_csv_of(contents@) == bom_rows_of(body),
            bom_rows_of(body.take(i - 1)) == Ok::<Seq<BomView>, InventoryCsvError>(bom_views(rows@)),
        decreases ls.len() - i,
    {
        let line = &ls[i];
        proof {
            let next = body.take(i as int);
            assert(next.drop_last() =~= body.take(i - 1));
            assert(next.last() == sl[i as int]);
            assert(ls@[i as int]@ == sl[i as int]);
        }
        if line.len() != 0 {
            match scan_csv_line(line.as_slice()) {
                None => {
                    proof {
                        lemma_bom_error_persists(body, i as int);
                    }
                    return Err(InventoryCsvError::MalformedRow);
                },
                Some(f) => {
                    if f.len() != 9 {
                        proof {
                            lemma_bom_error_persists(body, i as int);
                        }
                        return Err(InventoryCsvError::ColumnCount);
                    }
                    match bom_row_from_fields(&f) {
                        Ok(row) => {
                            let ghost before = bom_views(rows@);
                            let ghost v = bom_view(row);
                            rows.push(row);
                            assert(bom_views(rows@) =~= before.push(v));
                        },
                        Err(c) => {
                            proof {
                                lemma_bom_error_persists(body, i as int);
                            }
                            return Err(InventoryCsvError::InvalidField { column: c });
                        },
                    }
                },
            }
        }
        i = i + 1;
    }
    assert(body.take(i - 1) =~= body);
    Ok(rows)
}

/// `s` holds no line break.
pub open spec fn newline_free(s: Seq<char>) -> bool {
    forall|i: int| 0 <= i < s.len() ==> s[i] != '\n'
}

proof fn lemma_double_quotes_newline_free(s: Seq<char>)
    requires
        newline_free(s),
    ensures
        newline_free(double_quotes(s)),
    decreases s.len(),
{
    if s.len() > 0 {
        let rest = s.drop_first();
        assert(newline_free(rest)) by {
            assert forall|i: int| 0 <= i < rest.len() implies rest[i] != '\n' by {
                assert(rest[i] == s[i + 1]);
            }
        }
        lemma_double_quotes_newline_free(rest);
        let d = double_quotes(s);
        assert(s[0] != '\n');
        if s[0] == '"' {
            assert(d == seq!['"', '"'] + double_quotes(rest));
            assert forall|i: int| 0 <= i < d.len() implies d[i] != '\n' by {
                if i >= 2 {
                    assert(d[i] == double_quotes(rest)[i - 2]);
                }
            }
        } else {
            assert(d == seq![s[0]] + double_quotes(rest));
            assert forall|i: int| 0 <= i < d.len() implies d[i] != '\n' by {
                if i >= 1 {
                    assert(d[i] == double_quotes(rest)[i - 1]);
                }
            }
        }
    }
}

proof fn lemma_field_newline_free(s: Seq<char>)
    requires
        newline_free(s),
    ensures
        newline_free(csv_field(s)),
{
    if needs_quotes(s) {
        lemma_double_quotes_newline_free(s);
        let d = double_quotes(s);
        let f = csv_field(s);
        assert forall|i: int| 0 <= i < f.len() implies f[i] != '\n' by {
            if 1 <= i < f.len() - 1 {
                assert(f[i] == d[i - 1]);
            }
        }
    }
}

proof fn lemma_row_text(fs: Seq<Seq<char>>)
    requires
        fs.len() >= 1,
        forall|i: int| 0 <= i < fs.len() ==> newline_free(#[trigger] fs[i]),
        fs.last().len() > 0,
    ensures
        newline_free(csv_row(fs)),
        csv_row(fs).len() > 0,
        csv_row(fs).last() == fs.last().last(),
    decreases fs.len(),
{
    if fs.len() == 1 {
        assert(newline_free(fs[0]));
    } else {
        let init = fs.drop_last();
        assert(newline_free(fs[fs.len() - 1]));
        assert(forall|i: int| 0 <= i < init.len() ==> #[trigger] init[i] == fs[i]);
        assert forall|i: int| 0 <= i < init.len() implies newline_free(#[trigger] init[i]) by {
            assert(newline_free(fs[i]));
        }
        let a = csv_row(init);
        let r = csv_row(fs);
        if init.last().len() > 0 {
            lemma_row_text(init);
        } else {
            lemma_row_newline_free(init);
        }
        assert(r == a + seq![','] + fs.last());
        assert forall|i: int| 0 <= i < r.len() implies r[i] != '\n' by {
            if i < a.len() {
                assert(r[i] == a[i]);
            } else if i > a.len() {
                assert(r[i] == fs.last()[i - a.len() - 1]);
            }
        }
    }
}

proof fn lemma_row_newline_free(fs: Seq<Seq<char>>)
    requires
        forall|i: int| 0 <= i < fs.len() ==> newline_free(#[trigger] fs[i]),
    ensures
        newline_free(csv_row(fs)),
    decreases fs.len(),
{
    if fs.len() == 1 {
        assert(newline_free(fs[0]));
    } else if fs.len() > 1 {
        let init = fs.drop_last();
        assert(newline_free(fs[fs.len() - 1]));
        assert forall|i: int| 0 <= i < init.len() implies newline_free(#[trigger] init[i]) by {
            assert(init[i] == fs[i]);
            assert(newline_free(fs[i]));
        }
        lemma_row_newline_free(init);
        let a = csv_row(init);
        let r = csv_row(fs);
        assert(r == a + seq![','] + fs.last());
        assert forall|i: int| 0 <= i < r.len() implies r[i] != '\n' by {
            if i < a.len() {
                assert(r[i] == a[i]);
            } else if i > a.len() {
                assert(r[i] == fs.last()[i - a.len() - 1]);
            }
        }
    }
}

proof fn lemma_plain_field(s: Seq<char>)
    requires
        forall|i: int| 0 <= i < s.len() ==> is_digit(#[trigger] s[i]) || s[i] == '-' || ('a' <= s[i] && s[i] <= 'z'),
    ensures
        csv_field(s) == s,
        newline_free(s),
{
    if needs_quotes(s) {
        let i = choose|i: int| 0 <= i < s.len() && (s[i] == ',' || s[i] == '"' || s[i] == '\n');
        assert(is_digit(s[i]) || s[i] == '-' || ('a' <= s[i] && s[i] <= 'z'));
    }
    assert forall|i: int| 0 <= i < s.len() implies s[i] != '\n' by {
        assert(is_digit(s[i]) || s[i] == '-' || ('a' <= s[i] && s[i] <= 'z'));
    }
}

proof fn lemma_int_field(v: int)
    ensures
        csv_field(int_text(v)) == int_text(v),
        newline_free(int_text(v)),
        int_text(v).len() > 0,
{
    lemma_int_text_chars(v);
    lemma_plain_field(int_text(v));
}

proof fn lemma_bool_field(b: bool)
    ensures
        csv_field(bool_text(b)) == bool_text(b),
        newline_free(bool_text(b)),
        bool_parsed(bool_text(b)) == Some(b),
        bool_text(b).last() == 'e',
{
    let t = bool_text(b);
    assert forall|i: int| 0 <= i < t.len() implies is_digit(#[trigger] t[i]) || t[i] == '-' || ('a' <= t[i]
        && t[i] <= 'z') by {}
    lemma_plain_field(t);
    if !b {
        assert(bool_text(false) != bool_text(true)) by {
            assert(bool_text(false).len() != bool_text(true).len());
        }
    }
}

/// The texts of a bill-of-materials row hold no line break.
pub open spec fn bom_row_one_line(r: NativeBomRow) -> bool {
    newline_free(r.reference@) && newline_free(r.value@) && newline_free(r.part_uuid@) && newline_free(
        r.package_uuid@,
    )
}

/// The lines of a bill-of-materials file after its header, one per row.
pub open spec fn bom_row_lines(rows: Seq<NativeBomRow>) -> Seq<Seq<char>> {
    Seq::new(rows.len(), |i: int| csv_row(bom_written_fields(rows[i])))
}

proof fn lemma_bom_line(r: NativeBomRow)
    requires
        bom_row_one_line(r),
    ensures
        csv_fields_written(bom_text_fields(r)) == bom_written_fields(r),
        newline_free(csv_row(bom_written_fields(r))),
        csv_row(bom_written_fields(r)).len() > 0,
        strip_cr(csv_row(bom_written_fields(r))) == csv_row(bom_written_fields(r)),
        csv_fields(csv_row(bom_written_fields(r))) == Some(bom_text_fields(r)),
        bom_row_of(bom_text_fields(r)) == Ok::<BomView, InventoryColumn>(bom_view(r)),
{
    lemma_int_field(r.layer as int);
    lemma_int_field(r.x_nm as int);
    lemma_int_field(r.y_nm as int);
    lemma_int_field(r.rotation_deg as int);
    lemma_bool_field(r.locked);
    lemma_field_newline_free(r.reference@);
    lemma_field_newline_free(r.value@);
    lemma_field_newline_free(r.part_uuid@);
    lemma_field_newline_free(r.package_uuid@);
    let w = bom_written_fields(r);
    assert(csv_fields_written(bom_text_fields(r)) =~= w);
    assert forall|i: int| 0 <= i < w.len() implies newline_free(#[trigger] w[i]) by {}
    assert(w.last() == bool_text(r.locked));
    lemma_row_text(w);
    lemma_csv_line_reads_back(bom_text_fields(r));
    lemma_int_text_reads(r.layer as int, i32::MIN as int, i32::MAX as int);
    lemma_int_text_reads(r.x_nm as int, i64::MIN as int, i64::MAX as int);
    lemma_int_text_reads(r.y_nm as int, i64::MIN as int, i64::MAX as int);
    lemma_int_text_reads(r.rotation_deg as int, i32::MIN as int, i32::MAX as int);
}

proof fn lemma_bom_lines(rows: Seq<NativeBomRow>)
    requires
        forall|i: int| 0 <= i < rows.len() ==> bom_row_one_line(#[trigger] rows[i]),
    ensures
        lines(bom_lines_text(rows)) == bom_row_lines(rows),
        bom_lines_text(rows).len() == 0 || bom_lines_text(rows).last() == '\n',
    decreases rows.len(),
{
    if rows.len() == 0 {
        assert(lines(bom_lines_text(rows)) =~= bom_row_lines(rows));
    } else {
        let init = rows.drop_last();
        assert forall|i: int| 0 <= i < init.len() implies bom_row_one_line(#[trigger] init[i]) by {
            assert(init[i] == rows[i]);
        }
        lemma_bom_lines(init);
        let last = rows.last();
        assert(bom_row_one_line(rows[rows.len() - 1]));
        lemma_bom_line(last);
        let line = csv_row(bom_written_fields(last));
        lemma_lines_append(bom_lines_text(init), line + seq!['\n']);
        lemma_lines_cons(line, Seq::empty());
        assert(line + seq!['\n'] + Seq::<char>::empty() =~= line + seq!['\n']);
        assert(lines(Seq::<char>::empty()) =~= Seq::<Seq<char>>::empty());
        assert(bom_lines_text(rows) == bom_lines_text(init) + (line + seq!['\n']));
        assert(lines(bom_lines_text(rows)) =~= bom_row_lines(rows));
    }
}

proof fn lemma_bom_rows_read(rows: Seq<NativeBomRow>)
    requires
        forall|i: int| 0 <= i < rows.len() ==> bom_row_one_line(#[trigger] rows[i]),
    ensures
        bom_rows_of(bom_row_lines(rows)) == Ok::<Seq<BomView>, InventoryCsvError>(bom_views(rows)),
    decreases rows.len(),
{
    if rows.len() == 0 {
        assert(bom_row_lines(rows) =~= Seq::<Seq<char>>::empty());
        assert(bom_views(rows) =~= Seq::<BomView>::empty());
    } else {
        let init = rows.drop_last();
        assert forall|i: int| 0 <= i < init.len() implies bom_row_one_line(#[trigger] init[i]) by {
            assert(init[i] == rows[i]);
        }
        lemma_bom_rows_read(init);
        assert(bom_row_one_line(rows[rows.len() - 1]));
        lemma_bom_line(rows.last());
        let ls = bom_row_lines(rows);
        assert(ls.drop_last() =~= bom_row_lines(init));
        assert(ls.last() == csv_row(bom_written_fields(rows.last())));
        assert(bom_text_fields(rows.last()).len() == 9);
        assert(bom_views(rows) =~= bom_views(init).push(bom_view(rows.last())));
    }
}

/// A bill-of-materials file written from rows reads back as those rows, in
/// order, provided no reference, value or UUID text holds a line break (a
/// quoted line break would split the row across two lines).
pub proof fn lemma_bom_csv_reads_back(rows: Seq<NativeBomRow>)
    requires
        forall|i: int| 0 <= i < rows.len() ==> bom_row_one_line(#[trigger] rows[i]),
    ensures
        bom_csv_of(bom_csv_text(rows)) == Ok::<Seq<BomView>, InventoryCsvError>(bom_views(rows)),
{
    let h = bom_csv_header();
    let rest = bom_lines_text(rows);
    assert forall|i: int| 0 <= i < h.len() implies h[i] != '\n' by {}
    lemma_lines_cons(h, rest);
    assert(bom_csv_text(rows) == h + seq!['\n'] + rest);
    assert(strip_cr(h) == h);
    let ls = lines(bom_csv_text(rows));
    assert(ls[0] == h);
    assert(ls.skip(1) =~= lines(rest));
    lemma_bom_lines(rows);
    lemma_bom_rows_read(rows);
}

/// The header line of a pick-and-place file.
pub open spec fn pnp_csv_header() -> Seq<char> {
    seq![
        'r', 'e', 'f', 'e', 'r', 'e', 'n', 'c', 'e', ',', 'x', '_', 'n', 'm', ',', 'y', '_', 'n', 'm', ',', 'r',
        'o', 't', 'a', 't', 'i', 'o', 'n', '_', 'd', 'e', 'g', ',', 'l', 'a', 'y', 'e', 'r', ',', 's', 'i', 'd',
        'e', ',', 'p', 'a', 'c', 'k', 'a', 'g', 'e', '_', 'u', 'u', 'i', 'd', ',', 'p', 'a', 'r', 't', '_', 'u',
        'u', 'i', 'd', ',', 'v', 'a', 'l', 'u', 'e', ',', 'l', 'o', 'c', 'k', 'e', 'd',
    ]
}

/// A pick-and-place row's fields as text, in file order.
pub open spec fn pnp_text_fields(r: NativePnpRow) -> Seq<Seq<char>> {
    seq![
        r.reference@,
        int_text(r.x_nm as int),
        int_text(r.y_nm as int),
        int_text(r.rotation_deg as int),
        int_text(r.layer as int),
        r.side@,
        r.package_uuid@,
        r.part_uuid@,
        r.value@,
        bool_text(r.locked),
    ]
}

/// A pick-and-place row's fields as the file holds them: the reference,
/// UUIDs and value quoted where they need it, the numbers, side and lock
/// flag as they are written.
pub open spec fn pnp_written_fields(r: NativePnpRow) -> Seq<Seq<char>> {
    seq![
        csv_field(r.reference@),
        int_text(r.x_nm as int),
        int_text(r.y_nm as int),
        int_text(r.rotation_deg as int),
        int_text(r.layer as int),
        r.side@,
        csv_field(r.package_uuid@),
        csv_field(r.part_uuid@),
        csv_field(r.value@),
        bool_text(r.locked),
    ]
}

/// The lines of the rows, each ended by a line break.
pub open spec fn pnp_lines_text(rows: Seq<NativePnpRow>) -> Seq<char>
    decreases rows.len(),
{
    if rows.len() == 0 {
        Seq::empty()
    } else {
        pnp_lines_text(rows.drop_last()) + csv_row(pnp_written_fields(rows.last())) + seq!['\n']
    }
}

/// A pick-and-place file: the header line, then a line per row.
pub open spec fn pnp_csv_text(rows: Seq<NativePnpRow>) -> Seq<char> {
    pnp_csv_header() + seq!['\n'] + pnp_lines_text(rows)
}

fn pnp_row_chars(r: &NativePnpRow) -> (v: Vec<char>)
    ensures
        v@ == csv_row(pnp_written_fields(*r)),
{
    let mut fields: Vec<Vec<char>> = Vec::new();
    fields.push(text_field(&r.reference));
    fields.push(int_field(r.x_nm));
    fields.push(int_field(r.y_nm));
    fields.push(int_field(r.rotation_deg as i64));
    fields.push(int_field(r.layer as i64));
    fields.push(chars_of(r.side.as_str()));
    fields.push(text_field(&r.package_uuid));
    fields.push(text_field(&r.part_uuid));
    fields.push(text_field(&r.value));
    fields.push(bool_field(r.locked));
    assert(chars_view(fields@) =~= pnp_written_fields(*r));
    let mut out: Vec<char> = Vec::new();
    push_csv_row(&mut out, &fields);
    assert(out@ =~= csv_row(pnp_written_fields(*r)));
    out
}

/// The pick-and-place file of the rows: the header line, then one line per
/// row with the reference, position, rotation, layer, side, package and part
/// UUIDs, value and lock flag, the texts quoted where they need it (the side
/// is written as it is).
pub fn render_native_project_pnp_csv(rows: &[NativePnpRow]) -> (r: String)
    ensures
        r@ == pnp_csv_text(rows@),
{
    let mut out: Vec<char> = Vec::new();
    let header = [
        'r', 'e', 'f', 'e', 'r', 'e', 'n', 'c', 'e', ',', 'x', '_', 'n', 'm', ',', 'y', '_', 'n', 'm', ',', 'r',
        'o', 't', 'a', 't', 'i', 'o', 'n', '_', 'd', 'e', 'g', ',', 'l', 'a', 'y', 'e', 'r', ',', 's', 'i', 'd',
        'e', ',', 'p', 'a', 'c', 'k', 'a', 'g', 'e', '_', 'u', 'u', 'i', 'd', ',', 'p', 'a', 'r', 't', '_', 'u',
        'u', 'i', 'd', ',', 'v', 'a', 'l', 'u', 'e', ',', 'l', 'o', 'c', 'k', 'e', 'd', '\n',
    ];
    let mut h: usize = 0;
    while h < header.len()
        invariant
            h <= header@.len(),
            out@ == header@.take(h as int),
        decreases header@.len() - h,
    {
        out.push(header[h]);
        assert(header@.take(h + 1) =~= header@.take(h as int).push(header@[h as int]));
        h = h + 1;
    }
    assert(out@ =~= pnp_csv_header() + seq!['\n']);
    let mut i: usize = 0;
    assert(rows@.take(0) =~= Seq::<NativePnpRow>::empty());
    while i < rows.len()
        invariant
            i <= rows@.len(),
            out@ == pnp_csv_header() + seq!['\n'] + pnp_lines_text(rows@.take(i as int)),
        decreases rows@.len() - i,
    {
        let line = pnp_row_chars(&rows[i]);
        let mut k: usize = 0;
        let ghost mid = out@;
        while k < line.len()
            invariant
                k <= line@.len(),
                out@ == mid + line@.take(k as int),
            decreases line@.len() - k,
        {
            out.push(line[k]);
            assert(line@.take(k + 1) =~= line@.take(k as int).push(line@[k as int]));
            k = k + 1;
        }
        out.push('\n');
        proof {
            assert(line@.take(line@.len() as int) =~= line@);
            let t = rows@.take(i + 1);
            assert(t.drop_last() =~= rows@.take(i as int));
            assert(t.last() == rows@[i as int]);
            assert(out@ =~= pnp_csv_header() + seq!['\n'] + pnp_lines_text(t));
        }
        i = i + 1;
    }
    assert(rows@.take(rows@.len() as int) =~= rows@);
    string_from_chars(out.as_slice())
}

/// A pick-and-place row as plain values: reference, position, rotation,
/// layer, side, package and part UUID texts, value and lock flag.
pub type PnpView = (Seq<char>, i64, i64, i32, i32, Seq<char>, Seq<char>, Seq<char>, Seq<char>, bool);

/// The plain values of a pick-and-place row.
pub open spec fn pnp_view(r: NativePnpRow) -> PnpView {
    (
        r.reference@,
        r.x_nm,
        r.y_nm,
        r.rotation_deg,
        r.layer,
        r.side@,
        r.package_uuid@,
        r.part_uuid@,
        r.value@,
        r.locked,
    )
}

/// The plain values of the rows.
pub open spec fn pnp_views(rows: Seq<NativePnpRow>) -> Seq<PnpView> {
    Seq::new(rows.len(), |i: int| pnp_view(rows[i]))
}

/// A row of ten fields read, or the first of x, y, rotation, layer and lock
/// flag, in that order, that does not read.
pub open spec fn pnp_row_of(f: Seq<Seq<char>>) -> Result<PnpView, InventoryColumn> {
    match i64_text(f[1]) {
        None => Err(InventoryColumn::XNm),
        Some(x) => match i64_text(f[2]) {
            None => Err(InventoryColumn::YNm),
            Some(y) => match i32_text(f[3]) {
                None => Err(InventoryColumn::RotationDeg),
                Some(rot) => match i32_text(f[4]) {
                    None => Err(InventoryColumn::Layer),
                    Some(layer) => match bool_parsed(f[9]) {
                        None => Err(InventoryColumn::Locked),
                        Some(locked) => Ok((f[0], x, y, rot, layer, f[5], f[6], f[7], f[8], locked)),
                    },
                },
            },
        },
    }
}

/// The rows of the lines after the header, in order: empty lines are
/// skipped, every other line must split into ten readable fields.
pub open spec fn pnp_rows_of(body: Seq<Seq<char>>) -> Result<Seq<PnpView>, InventoryCsvError>
    decreases body.len(),
{
    if body.len() == 0 {
        Ok(Seq::empty())
    } else {
        match pnp_rows_of(body.drop_last()) {
            Err(e) => Err(e),
            Ok(prev) => {
                let line = body.last();
                if line.len() == 0 {
                    Ok(prev)
                } else {
                    match csv_fields(line) {
                        None => Err(InventoryCsvError::MalformedRow),
                        Some(f) => if f.len() != 10 {
                            Err(InventoryCsvError::ColumnCount)
                        } else {
                            match pnp_row_of(f) {
                                Err(c) => Err(InventoryCsvError::InvalidField { column: c }),
                                Ok(v) => Ok(prev.push(v)),
                            }
                        },
                    }
                }
            },
        }
    }
}

/// A pick-and-place file read: its first line must be the header, the rest
/// are rows.
pub open spec fn pnp_csv_of(contents: Seq<char>) -> Result<Seq<PnpView>, InventoryCsvError> {
    let ls = lines(contents);
    if ls.len() == 0 {
        Err(InventoryCsvError::MissingHeader)
    } else if ls[0] != pnp_csv_header() {
        Err(InventoryCsvError::UnexpectedHeader)
    } else {
        pnp_rows_of(ls.skip(1))
    }
}

fn pnp_row_from_fields(f: &Vec<Vec<char>>) -> (r: Result<NativePnpRow, InventoryColumn>)
    requires
        f@.len() == 10,
    ensures
        match pnp_row_of(chars_view(f@)) {
            Ok(v) => r is Ok && pnp_view(r.unwrap()) == v,
            Err(c) => r == Err::<NativePnpRow, InventoryColumn>(c),
        },
{
    let ghost fs = chars_view(f@);
    assert(fs[0] == f@[0]@ && fs[1] == f@[1]@ && fs[2] == f@[2]@ && fs[3] == f@[3]@ && fs[4] == f@[4]@);
    assert(fs[5] == f@[5]@ && fs[6] == f@[6]@ && fs[7] == f@[7]@ && fs[8] == f@[8]@ && fs[9] == f@[9]@);
    let x_nm = match parse_i64(f[1].as_slice()) {
        Some(v) => v,
        None => { return Err(InventoryColumn::XNm); },
    };
    let y_nm = match parse_i64(f[2].as_slice()) {
        Some(v) => v,
        None => { return Err(InventoryColumn::YNm); },
    };
    let rotation_deg = match parse_i32(f[3].as_slice()) {
        Some(v) => v,
        None => { return Err(InventoryColumn::RotationDeg); },
    };
    let layer = match parse_i32(f[4].as_slice()) {
        Some(v) => v,
        None => { return Err(InventoryColumn::Layer); },
    };
    let locked = match parse_bool(f[9].as_slice()) {
        Some(v) => v,
        None => { return Err(InventoryColumn::Locked); },
    };
    Ok(NativePnpRow {
        reference: string_from_chars(f[0].as_slice()),
        x_nm,
        y_nm,
        rotation_deg,
        layer,
        side: string_from_chars(f[5].as_slice()),
        package_uuid: string_from_chars(f[6].as_slice()),
        part_uuid: string_from_chars(f[7].as_slice()),
        value: string_from_chars(f[8].as_slice()),
        locked,
    })
}

proof fn lemma_pnp_error_persists(body: Seq<Seq<char>>, i: int)
    requires
        0 <= i <= body.len(),
        pnp_rows_of(body.take(i)) is Err,
    ensures
        pnp_rows_of(body) == pnp_rows_of(body.take(i)),
    decreases body.len() - i,
{
    if i < body.len() {
        assert(body.take(i + 1).drop_last() =~= body.take(i));
        lemma_pnp_error_persists(body, i + 1);
    } else {
        assert(body.take(i) =~= body);
    }
}

/// The rows of a pick-and-place file, in order: the first line must be the
/// header, empty lines are skipped, and every other line must split into ten
/// fields whose position, rotation, layer and lock flag read.
pub fn parse_pnp_csv(contents: &str) -> (r: Result<Vec<NativePnpRow>, InventoryCsvError>)
    ensures
        match pnp_csv_of(contents@) {
            Ok(vs) => r is Ok && pnp_views(r.unwrap()@) == vs,
            Err(e) => r == Err::<Vec<NativePnpRow>, InventoryCsvError>(e),
        },
{
    let text = chars_of(contents);
    let ls = split_lines(text.as_slice());
    let ghost sl = lines(contents@);
    if ls.len() == 0 {
        return Err(InventoryCsvError::MissingHeader);
    }
    let header_ok = chars_eq(
        ls[0].as_slice(),
        &[
            'r', 'e', 'f', 'e', 'r', 'e', 'n', 'c', 'e', ',', 'x', '_', 'n', 'm', ',', 'y', '_', 'n', 'm', ',',
            'r', 'o', 't', 'a', 't', 'i', 'o', 'n', '_', 'd', 'e', 'g', ',', 'l', 'a', 'y', 'e', 'r', ',', 's',
            'i', 'd', 'e', ',', 'p', 'a', 'c', 'k', 'a', 'g', 'e', '_', 'u', 'u', 'i', 'd', ',', 'p', 'a', 'r',
            't', '_', 'u', 'u', 'i', 'd', ',', 'v', 'a', 'l', 'u', 'e', ',', 'l', 'o', 'c', 'k', 'e', 'd',
        ],
    );
    assert(ls@[0]@ == sl[0]);
    if !header_ok {
        proof {
            if sl[0] == pnp_csv_header() {
                assert(false);
            }
        }
        return Err(InventoryCsvError::UnexpectedHeader);
    }
    let ghost body = sl.skip(1);
    let mut rows: Vec<NativePnpRow> = Vec::new();
    let mut i: usize = 1;
    assert(body.take(0) =~= Seq::<Seq<char>>::empty());
    assert(pnp_views(rows@) =~= Seq::<PnpView>::empty());
    while i < ls.len()
        invariant
            1 <= i <= ls@.len(),
            ls@.len() == sl.len(),
            forall|k: int| 0 <= k < ls@.len() ==> #[trigger] ls@[k]@ == sl[k],
            body == sl.skip(1),
            sl == lines(contents@),
            pnp_csv_of(contents@) == pnp_rows_of(body),
            pnp_rows_of(body.take(i - 1)) == Ok::<Seq<PnpView>, InventoryCsvError>(pnp_views(rows@)),
        decreases ls.len() - i,
    {
        let line = &ls[i];
        proof {
            let next = body.take(i as int);
            assert(next.drop_last() =~= body.take(i - 1));
            assert(next.last() == sl[i as int]);
            assert(ls@[i as int]@ == sl[i as int]);
        }
        if line.len() != 0 {
            match scan_csv_line(line.as_slice()) {
                None => {
                    proof {
                        lemma_pnp_error_persists(body, i as int);
                    }
                    return Err(InventoryCsvError::MalformedRow);
                },
                Some(f) => {
                    if f.len() != 10 {
                        proof {
                            lemma_pnp_error_persists(body, i as int);
                        }
                        return Err(InventoryCsvError::ColumnCount);
                    }
                    match pnp_row_from_fields(&f) {
                        Ok(row) => {
                            let ghost before = pnp_views(rows@);
                            let ghost v = pnp_view(row);
                            rows.push(row);
                            assert(pnp_views(rows@) =~= before.push(v));
                        },
                        Err(c) => {
                            proof {
                                lemma_pnp_error_persists(body, i as int);
                            }
                            return Err(InventoryCsvError::InvalidField { column: c });
                        },
                    }
                },
            }
        }
        i = i + 1;
    }
    assert(body.take(i - 1) =~= body);
    Ok(rows)
}

/// The texts of a pick-and-place row hold no line break, and its side needs
/// no quoting, as it is written as it is.
pub open spec fn pnp_row_one_line(r: NativePnpRow) -> bool {
    newline_free(r.reference@) && !needs_quotes(r.side@) && newline_free(r.package_uuid@) && newline_free(
        r.part_uuid@,
    ) && newline_free(r.value@)
}

/// The lines of a pick-and-place file after its header, one per row.
pub open spec fn pnp_row_lines(rows: Seq<NativePnpRow>) -> Seq<Seq<char>> {
    Seq::new(rows.len(), |i: int| csv_row(pnp_written_fields(rows[i])))
}

proof fn lemma_pnp_line(r: NativePnpRow)
    requires
        pnp_row_one_line(r),
    ensures
        csv_fields_written(pnp_text_fields(r)) == pnp_written_fields(r),
        newline_free(csv_row(pnp_written_fields(r))),
        csv_row(pnp_written_fields(r)).len() > 0,
        strip_cr(csv_row(pnp_written_fields(r))) == csv_row(pnp_written_fields(r)),
        csv_fields(csv_row(pnp_written_fields(r))) == Some(pnp_text_fields(r)),
        pnp_row_of(pnp_text_fields(r)) == Ok::<PnpView, InventoryColumn>(pnp_view(r)),
{
    lemma_int_field(r.layer as int);
    lemma_int_field(r.x_nm as int);
    lemma_int_field(r.y_nm as int);
    lemma_int_field(r.rotation_deg as int);
    lemma_bool_field(r.locked);
    lemma_field_newline_free(r.reference@);
    lemma_field_newline_free(r.package_uuid@);
    lemma_field_newline_free(r.part_uuid@);
    lemma_field_newline_free(r.value@);
    assert(newline_free(r.side@)) by {
        assert forall|i: int| 0 <= i < r.side@.len() implies r.side@[i] != '\n' by {
            if r.side@[i] == '\n' {
                assert(needs_quotes(r.side@));
            }
        }
    }
    let w = pnp_written_fields(r);
    assert(csv_fields_written(pnp_text_fields(r)) =~= w);
    assert forall|i: int| 0 <= i < w.len() implies newline_free(#[trigger] w[i]) by {}
    assert(w.last() == bool_text(r.locked));
    lemma_row_text(w);
    lemma_csv_line_reads_back(pnp_text_fields(r));
    lemma_int_text_reads(r.layer as int, i32::MIN as int, i32::MAX as int);
    lemma_int_text_reads(r.x_nm as int, i64::MIN as int, i64::MAX as int);
    lemma_int_text_reads(r.y_nm as int, i64::MIN as int, i64::MAX as int);
    lemma_int_text_reads(r.rotation_deg as int, i32::MIN as int, i32::MAX as int);
}

proof fn lemma_pnp_lines(rows: Seq<NativePnpRow>)
    requires
        forall|i: int| 0 <= i < rows.len() ==> pnp_row_one_line(#[trigger] rows[i]),
    ensures
        lines(pnp_lines_text(rows)) == pnp_row_lines(rows),
        pnp_lines_text(rows).len() == 0 || pnp_lines_text(rows).last() == '\n',
    decreases rows.len(),
{
    if rows.len() == 0 {
        assert(lines(pnp_lines_text(rows)) =~= pnp_row_lines(rows));
    } else {
        let init = rows.drop_last();
        assert forall|i: int| 0 <= i < init.len() implies pnp_row_one_line(#[trigger] init[i]) by {
            assert(init[i] == rows[i]);
        }
        lemma_pnp_lines(init);
        let last = rows.last();
        assert(pnp_row_one_line(rows[rows.len() - 1]));
        lemma_pnp_line(last);
        let line = csv_row(pnp_written_fields(last));
        lemma_lines_append(pnp_lines_text(init), line + seq!['\n']);
        lemma_lines_cons(line, Seq::empty());
        assert(line + seq!['\n'] + Seq::<char>::empty() =~= line + seq!['\n']);
        assert(lines(Seq::<char>::empty()) =~= Seq::<Seq<char>>::empty());
        assert(pnp_lines_text(rows) == pnp_lines_text(init) + (line + seq!['\n']));
        assert(lines(pnp_lines_text(rows)) =~= pnp_row_lines(rows));
    }
}

proof fn lemma_pnp_rows_read(rows: Seq<NativePnpRow>)
    requires
        forall|i: int| 0 <= i < rows.len() ==> pnp_row_one_line(#[trigger] rows[i]),
    ensures
        pnp_rows_of(pnp_row_lines(rows)) == Ok::<Seq<PnpView>, InventoryCsvError>(pnp_views(rows)),
    decreases rows.len(),
{
    if rows.len() == 0 {
        assert(pnp_row_lines(rows) =~= Seq::<Seq<char>>::empty());
        assert(pnp_views(rows) =~= Seq::<PnpView>::empty());
    } else {
        let init = rows.drop_last();
        assert forall|i: int| 0 <= i < init.len() implies pnp_row_one_line(#[trigger] init[i]) by {
            assert(init[i] == rows[i]);
        }
        lemma_pnp_rows_read(init);
        assert(pnp_row_one_line(rows[rows.len() - 1]));
        lemma_pnp_line(rows.last());
        let ls = pnp_row_lines(rows);
        assert(ls.drop_last() =~= pnp_row_lines(init));
        assert(ls.last() == csv_row(pnp_written_fields(rows.last())));
        assert(pnp_text_fields(rows.last()).len() == 10);
        assert(pnp_views(rows) =~= pnp_views(init).push(pnp_view(rows.last())));
    }
}

/// A pick-and-place file written from rows reads back as those rows, in
/// order, provided no reference, UUID or value text holds a line break and
/// the side needs no quoting (it is written unquoted).
pub proof fn lemma_pnp_csv_reads_back(rows: Seq<NativePnpRow>)
    requires
        forall|i: int| 0 <= i < rows.len() ==> pnp_row_one_line(#[trigger] rows[i]),
    ensures
        pnp_csv_of(pnp_csv_text(rows)) == Ok::<Seq<PnpView>, InventoryCsvError>(pnp_views(rows)),
{
    let h = pnp_csv_header();
    let rest = pnp_lines_text(rows);
    assert forall|i: int| 0 <= i < h.len() implies h[i] != '\n' by {}
    lemma_lines_cons(h, rest);
    assert(pnp_csv_text(rows) == h + seq!['\n'] + rest);
    assert(strip_cr(h) == h);
    let ls = lines(pnp_csv_text(rows));
    assert(ls[0] == h);
    assert(ls.skip(1) =~= lines(rest));
    lemma_pnp_lines(rows);
    lemma_pnp_rows_read(rows);
}

/// `b` can stand for `a` in a comparison: it has the same reference, and
/// every row differs from both in the same fields.
pub open spec fn interchangeable<T: InventoryRow>(a: T, b: T) -> bool {
    a.ref_view() == b.ref_view() && forall|e: T| #[trigger] e.field_diffs(&a) == e.field_diffs(&b)
}

/// Each row of `b` can stand for the row of `a` at its position.
pub open spec fn interchangeable_rows<T: InventoryRow>(a: Seq<T>, b: Seq<T>) -> bool {
    a.len() == b.len() && forall|i: int| 0 <= i < a.len() ==> interchangeable(#[trigger] a[i], b[i])
}

proof fn lemma_interchangeable_rest<T: InventoryRow>(a: Seq<T>, b: Seq<T>)
    requires
        interchangeable_rows(a, b),
        a.len() > 0,
    ensures
        interchangeable_rows(a.drop_first(), b.drop_first()),
        interchangeable_rows(a.drop_last(), b.drop_last()),
        interchangeable(a[0], b[0]),
        interchangeable(a.last(), b.last()),
{
    assert(interchangeable(a[0], b[0]));
    assert(interchangeable(a[a.len() - 1], b[b.len() - 1]));
    assert forall|i: int| 0 <= i < a.len() - 1 implies interchangeable(#[trigger] a.drop_first()[i], b.drop_first()[i]) by {
        assert(interchangeable(a[i + 1], b[i + 1]));
    }
    assert forall|i: int| 0 <= i < a.len() - 1 implies interchangeable(#[trigger] a.drop_last()[i], b.drop_last()[i]) by {
        assert(interchangeable(a[i], b[i]));
    }
}

proof fn lemma_interchangeable_cons<T: InventoryRow>(x: T, y: T, a: Seq<T>, b: Seq<T>)
    requires
        interchangeable(x, y),
        interchangeable_rows(a, b),
    ensures
        interchangeable_rows(seq![x] + a, seq![y] + b),
{
    let l = seq![x] + a;
    let r = seq![y] + b;
    assert forall|i: int| 0 <= i < l.len() implies interchangeable(#[trigger] l[i], r[i]) by {
        if i > 0 {
            assert(l[i] == a[i - 1] && r[i] == b[i - 1]);
            assert(interchangeable(a[i - 1], b[i - 1]));
        }
    }
}

proof fn lemma_insert_interchangeable<T: InventoryRow>(t: Seq<T>, u: Seq<T>, x: T, y: T)
    requires
        interchangeable_rows(t, u),
        interchangeable(x, y),
    ensures
        interchangeable_rows(insert_by_reference(t, x), insert_by_reference(u, y)),
    decreases t.len(),
{
    if t.len() == 0 {
        lemma_interchangeable_cons(x, y, t, u);
        assert(seq![x] + t =~= seq![x]);
        assert(seq![y] + u =~= seq![y]);
    } else {
        lemma_interchangeable_rest(t, u);
        assert(t[0].ref_view() == u[0].ref_view());
        if text_order(x.ref_view(), t[0].ref_view()) == PathOrder::Less {
            lemma_interchangeable_cons(x, y, t, u);
        } else if text_order(x.ref_view(), t[0].ref_view()) == PathOrder::Equal {
            lemma_interchangeable_cons(x, y, t.drop_first(), u.drop_first());
        } else {
            lemma_insert_interchangeable(t.drop_first(), u.drop_first(), x, y);
            lemma_interchangeable_cons(
                t[0],
                u[0],
                insert_by_reference(t.drop_first(), x),
                insert_by_reference(u.drop_first(), y),
            );
        }
    }
}

proof fn lemma_by_reference_interchangeable<T: InventoryRow>(a: Seq<T>, b: Seq<T>)
    requires
        interchangeable_rows(a, b),
    ensures
        interchangeable_rows(by_reference(a), by_reference(b)),
    decreases a.len(),
{
    if a.len() == 0 {
        assert(by_reference(a) =~= Seq::<T>::empty());
        assert(by_reference(b) =~= Seq::<T>::empty());
    } else {
        lemma_interchangeable_rest(a, b);
        lemma_by_reference_interchangeable(a.drop_last(), b.drop_last());
        lemma_insert_interchangeable(by_reference(a.drop_last()), by_reference(b.drop_last()), a.last(), b.last());
    }
}

proof fn lemma_find_interchangeable<T: InventoryRow>(ka: Seq<T>, kb: Seq<T>, r: Seq<char>)
    requires
        interchangeable_rows(ka, kb),
    ensures
        find_ref(ka, r) is None <==> find_ref(kb, r) is None,
        find_ref(ka, r) is Some ==> interchangeable(find_ref(ka, r).unwrap(), find_ref(kb, r).unwrap()),
    decreases ka.len(),
{
    if ka.len() > 0 {
        lemma_interchangeable_rest(ka, kb);
        lemma_find_interchangeable(ka.drop_first(), kb.drop_first(), r);
    }
}

proof fn lemma_compare_interchangeable<T: InventoryRow>(ke: Seq<T>, ka: Seq<T>, kb: Seq<T>)
    requires
        interchangeable_rows(ka, kb),
    ensures
        matched_refs(ke, ka) == matched_refs(ke, kb),
        unmatched_refs(ke, ka) == unmatched_refs(ke, kb),
        drifted_refs(ke, ka) == drifted_refs(ke, kb),
    decreases ke.len(),
{
    if ke.len() > 0 {
        lemma_compare_interchangeable(ke.drop_last(), ka, kb);
        let e = ke.last();
        lemma_find_interchangeable(ka, kb, e.ref_view());
        if find_ref(ka, e.ref_view()) is Some {
            let x = find_ref(ka, e.ref_view()).unwrap();
            let y = find_ref(kb, e.ref_view()).unwrap();
            assert(e.field_diffs(&x) == e.field_diffs(&y));
        }
    }
}

proof fn lemma_unmatched_interchangeable<T: InventoryRow>(ka: Seq<T>, kb: Seq<T>, ke: Seq<T>)
    requires
        interchangeable_rows(ka, kb),
    ensures
        unmatched_refs(ka, ke) == unmatched_refs(kb, ke),
    decreases ka.len(),
{
    if ka.len() > 0 {
        lemma_interchangeable_rest(ka, kb);
        lemma_unmatched_interchangeable(ka.drop_last(), kb.drop_last(), ke);
    }
}

/// Compared with rows that can each stand for one of its own, rows match
/// in every reference: none is missing, extra or drifted.
pub proof fn lemma_interchangeable_rows_match<T: InventoryRow>(rows: Seq<T>, read: Seq<T>)
    requires
        interchangeable_rows(rows, read),
    ensures
        matched_refs(by_reference(rows), by_reference(read)) == refs_of(by_reference(rows)),
        unmatched_refs(by_reference(rows), by_reference(read)).len() == 0,
        unmatched_refs(by_reference(read), by_reference(rows)).len() == 0,
        drifted_refs(by_reference(rows), by_reference(read)).len() == 0,
{
    lemma_by_reference_interchangeable(rows, read);
    let ke = by_reference(rows);
    let kb = by_reference(read);
    lemma_compare_interchangeable(ke, ke, kb);
    lemma_unmatched_interchangeable(ke, kb, ke);
    lemma_inventory_self_comparison(rows);
}

proof fn lemma_bom_views_interchangeable(a: Seq<NativeBomRow>, b: Seq<NativeBomRow>)
    requires
        bom_views(a) == bom_views(b),
    ensures
        interchangeable_rows(a, b),
{
    assert(bom_views(a).len() == a.len() && bom_views(b).len() == b.len());
    assert forall|i: int| 0 <= i < a.len() implies interchangeable(#[trigger] a[i], b[i]) by {
        assert(bom_views(a)[i] == bom_views(b)[i]);
        assert(bom_view(a[i]) == bom_view(b[i]));
        assert forall|e: NativeBomRow| #[trigger] e.field_diffs(&a[i]) == e.field_diffs(&b[i]) by {}
    }
}

proof fn lemma_pnp_views_interchangeable(a: Seq<NativePnpRow>, b: Seq<NativePnpRow>)
    requires
        pnp_views(a) == pnp_views(b),
    ensures
        interchangeable_rows(a, b),
{
    assert(pnp_views(a).len() == a.len() && pnp_views(b).len() == b.len());
    assert forall|i: int| 0 <= i < a.len() implies interchangeable(#[trigger] a[i], b[i]) by {
        assert(pnp_views(a)[i] == pnp_views(b)[i]);
        assert(pnp_view(a[i]) == pnp_view(b[i]));
        assert forall|e: NativePnpRow| #[trigger] e.field_diffs(&a[i]) == e.field_diffs(&b[i]) by {}
    }
}

/// A bill of materials written from the board's rows and read back (`read`
/// is what reading the file gives) matches the board's rows in every
/// reference when compared with them: none is missing, extra or drifted
/// (given that no reference, value or UUID text holds a line break).
pub proof fn lemma_exported_bom_matches_board(rows: Seq<NativeBomRow>, read: Seq<NativeBomRow>)
    requires
        forall|i: int| 0 <= i < rows.len() ==> bom_row_one_line(#[trigger] rows[i]),
        bom_csv_of(bom_csv_text(rows)) == Ok::<Seq<BomView>, InventoryCsvError>(bom_views(read)),
    ensures
        matched_refs(by_reference(rows), by_reference(read)) == refs_of(by_reference(rows)),
        unmatched_refs(by_reference(rows), by_reference(read)).len() == 0,
        unmatched_refs(by_reference(read), by_reference(rows)).len() == 0,
        drifted_refs(by_reference(rows), by_reference(read)).len() == 0,
{
    lemma_bom_csv_reads_back(rows);
    lemma_bom_views_interchangeable(rows, read);
    lemma_interchangeable_rows_match(rows, read);
}

/// A pick-and-place file written from the board's rows and read back
/// (`read` is what reading the file gives) matches the board's rows in every
/// reference when compared with them: none is missing, extra or drifted
/// (given that no reference, UUID or value text holds a line break and each
/// side needs no quoting).
pub proof fn lemma_exported_pnp_matches_board(rows: Seq<NativePnpRow>, read: Seq<NativePnpRow>)
    requires
        forall|i: int| 0 <= i < rows.len() ==> pnp_row_one_line(#[trigger] rows[i]),
        pnp_csv_of(pnp_csv_text(rows)) == Ok::<Seq<PnpView>, InventoryCsvError>(pnp_views(read)),
    ensures
        matched_refs(by_reference(rows), by_reference(read)) == refs_of(by_reference(rows)),
        unmatched_refs(by_reference(rows), by_reference(read)).len() == 0,
        unmatched_refs(by_reference(read), by_reference(rows)).len() == 0,
        drifted_refs(by_reference(rows), by_reference(read)).len() == 0,
{
    lemma_pnp_csv_reads_back(rows);
    lemma_pnp_views_interchangeable(rows, read);
    lemma_interchangeable_rows_match(rows, read);
}

} // verus!
