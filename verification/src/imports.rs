//! What a KiCad import reports: totals over the imported sheets and the
//! identities it reused from an earlier import, and the native sheet a
//! schematic import writes into.
use vstd::prelude::*;
use crate::forward_annotation_audit::{find_by_reference, find_ref};
use crate::ids::{parse_uuid, uuid_parsed, uuid_text, uuid_text_of};
use crate::render::push_chars;
use crate::text::{chars_of, string_from_chars};

verus! {

/// The sum of the counts.
pub open spec fn sum_counts(counts: Seq<usize>) -> nat
    decreases counts.len(),
{
    if counts.len() == 0 {
        0
    } else {
        sum_counts(counts.drop_last()) + counts.last() as nat
    }
}

proof fn lemma_sum_prefix(counts: Seq<usize>, i: int)
    requires
        0 <= i <= counts.len(),
    ensures
        sum_counts(counts.take(i)) <= sum_counts(counts),
    decreases counts.len() - i,
{
    if i < counts.len() {
        lemma_sum_prefix(counts, i + 1);
        assert(counts.take(i + 1).drop_last() =~= counts.take(i));
    } else {
        assert(counts.take(i) =~= counts);
    }
}

/// The total of per-sheet counts (symbols, wires, labels and the like).
pub fn total_count(counts: &[usize]) -> (n: usize)
    requires
        sum_counts(counts@) <= usize::MAX,
    ensures
        n == sum_counts(counts@),
{
    let mut n: usize = 0;
    let mut i: usize = 0;
    assert(counts@.take(0) =~= Seq::<usize>::empty());
    while i < counts.len()
        invariant
            i <= counts.len(),
            sum_counts(counts@) <= usize::MAX,
            n == sum_counts(counts@.take(i as int)),
        decreases counts.len() - i,
    {
        proof {
            let next = counts@.take(i + 1);
            assert(next.drop_last() =~= counts@.take(i as int));
            assert(next.last() == counts@[i as int]);
            lemma_sum_prefix(counts@, i + 1);
        }
        n = n + counts[i];
        i = i + 1;
    }
    assert(counts@.take(counts.len() as int) =~= counts@);
    n
}

/// An identity an import assigns: the object and its import key.
pub struct ImportIdentity {
    pub object_id: u128,
    pub import_key: String,
}

/// How many identities name an object the import writes and carry a key the
/// import map already holds.
pub open spec fn reused_count(ids: Seq<ImportIdentity>, written: Seq<u128>, known_keys: Seq<String>) -> nat
    decreases ids.len(),
{
    if ids.len() == 0 {
        0
    } else {
        reused_count(ids.drop_last(), written, known_keys) + if written.contains(ids.last().object_id)
            && find_ref(known_keys, ids.last().import_key@) is Some {
            1nat
        } else {
            0nat
        }
    }
}

fn contains_id(ids: &[u128], id: u128) -> (b: bool)
    ensures
        b == ids@.contains(id),
{
    let mut i: usize = 0;
    while i < ids.len()
        invariant
            i <= ids.len(),
            forall|j: int| 0 <= j < i ==> ids@[j] != id,
        decreases ids.len() - i,
    {
        if ids[i] == id {
            assert(ids@[i as int] == id);
            return true;
        }
        i = i + 1;
    }
    false
}

/// How many identities of an import were reused: the object is one the
/// import writes and its import key is already in the import map.
pub fn count_reused_identities(identities: &[ImportIdentity], written: &[u128], known_keys: &[String]) -> (n:
    usize)
    ensures
        n == reused_count(identities@, written@, known_keys@),
{
    let mut n: usize = 0;
    let mut i: usize = 0;
    assert(identities@.take(0) =~= Seq::<ImportIdentity>::empty());
    while i < identities.len()
        invariant
            i <= identities.len(),
            n <= i,
            n == reused_count(identities@.take(i as int), written@, known_keys@),
        decreases identities.len() - i,
    {
        proof {
            let next = identities@.take(i + 1);
            assert(next.drop_last() =~= identities@.take(i as int));
            assert(next.last() == identities@[i as int]);
        }
        if contains_id(written, identities[i].object_id) && find_by_reference(
            known_keys,
            &identities[i].import_key,
        ).is_some() {
            n = n + 1;
        }
        i = i + 1;
    }
    assert(identities@.take(identities.len() as int) =~= identities@);
    n
}

/// The objects an import created: those the write created, and the sheet
/// when one was created for it.
pub fn created_object_count(written_created: usize, sheet_created: bool) -> (n: usize)
    requires
        written_created + (if sheet_created { 1int } else { 0int }) <= usize::MAX,
    ensures
        n == written_created + if sheet_created { 1int } else { 0int },
{
    if sheet_created {
        written_created + 1
    } else {
        written_created
    }
}

/// Why an imported schematic gives no root sheet.
#[derive(Debug, Clone, Copy, PartialEq, Eq, Structural)]
pub enum RootSheetError {
    /// The imported schematic has no sheets.
    NoSheets,
}

/// The root sheet of an imported schematic, given its sheets' ids in the
/// order of its sheet map and the document's UUID: the sheet keyed by the
/// document's UUID, else the first sheet; a schematic without sheets has
/// none.
pub fn imported_root_sheet(sheet_ids: &[u128], document: u128) -> (r: Result<u128, RootSheetError>)
    ensures
        sheet_ids@.contains(document) ==> r == Ok::<u128, RootSheetError>(document),
        !sheet_ids@.contains(document) && sheet_ids@.len() > 0 ==> r == Ok::<u128, RootSheetError>(
            sheet_ids@[0],
        ),
        sheet_ids@.len() == 0 ==> r == Err::<u128, RootSheetError>(RootSheetError::NoSheets),
{
    let mut i: usize = 0;
    while i < sheet_ids.len()
        invariant
            i <= sheet_ids@.len(),
            forall|j: int| 0 <= j < i ==> sheet_ids@[j] != document,
        decreases sheet_ids.len() - i,
    {
        if sheet_ids[i] == document {
            return Ok(document);
        }
        i = i + 1;
    }
    if sheet_ids.len() > 0 {
        Ok(sheet_ids[0])
    } else {
        Err(RootSheetError::NoSheets)
    }
}

/// The native sheet a schematic import writes into: its id, its path in the
/// project, and whether the import creates it.
#[derive(Debug, PartialEq, Eq)]
pub struct SheetTarget {
    pub sheet_id: u128,
    pub relative_path: String,
    pub created: bool,
}

/// Why no native sheet can be chosen.
#[derive(Debug, Clone, Copy, PartialEq, Eq, Structural)]
pub enum SheetTargetError {
    /// The first native sheet's id does not read as a UUID.
    InvalidSheetId,
}

/// The position of the first sheet whose id is `id`.
pub open spec fn sheet_position(sheets: Seq<(String, String)>, id: Seq<char>) -> Option<int>
    decreases sheets.len(),
{
    if sheets.len() == 0 {
        None
    } else if sheets[0].0@ == id {
        Some(0)
    } else {
        match sheet_position(sheets.drop_first(), id) {
            Some(i) => Some(i + 1),
            None => None,
        }
    }
}

/// The path of a native sheet created for the id `id`.
pub open spec fn new_sheet_path(id: u128) -> Seq<char> {
    seq!['s', 'h', 'e', 'e', 't', 's', '/'] + uuid_text_of(id) + seq!['.', 'j', 's', 'o', 'n']
}

/// Chooses the native sheet a schematic import writes into, given the
/// project's native sheets (id text and path, in the order of their ids)
/// and the imported root sheet's id: the native sheet with that id; else
/// the first native sheet, whose id must read as a UUID; else a new sheet
/// `sheets/{id}.json` for the imported root sheet, which the import creates.
pub fn schematic_import_target_sheet(sheets: &[(String, String)], imported_root: u128) -> (r: Result<
    SheetTarget,
    SheetTargetError,
>)
    ensures
        match sheet_position(sheets@, uuid_text_of(imported_root)) {
            Some(i) => r is Ok && r.unwrap().sheet_id == imported_root && r.unwrap().relative_path
                == sheets@[i].1 && !r.unwrap().created,
            None => if sheets@.len() > 0 {
                match uuid_parsed(sheets@[0].0@) {
                    None => r == Err::<SheetTarget, SheetTargetError>(SheetTargetError::InvalidSheetId),
                    Some(id) => r is Ok && r.unwrap().sheet_id == id && r.unwrap().relative_path == sheets@[0].1
                        && !r.unwrap().created,
                }
            } else {
                r is Ok && r.unwrap().sheet_id == imported_root && r.unwrap().relative_path@ == new_sheet_path(
                    imported_root,
                ) && r.unwrap().created
            },
        },
{
    let id_text = uuid_text(imported_root);
    let mut i: usize = 0;
    assert(sheets@.skip(0) =~= sheets@);
    while i < sheets.len()
        invariant
            i <= sheets@.len(),
            id_text@ == uuid_text_of(imported_root),
            sheet_position(sheets@, id_text@) == match sheet_position(sheets@.skip(i as int), id_text@) {
                Some(j) => Some(j + i),
                None => None::<int>,
            },
        decreases sheets.len() - i,
    {
        let ghost rest = sheets@.skip(i as int);
        assert(rest[0] == sheets@[i as int]);
        if sheets[i].0 == id_text {
            return Ok(SheetTarget { sheet_id: imported_root, relative_path: sheets[i].1.clone(), created: false });
        }
        assert(rest.drop_first() =~= sheets@.skip(i + 1));
        i = i + 1;
    }
    assert(sheets@.skip(i as int) =~= Seq::<(String, String)>::empty());
    if sheets.len() > 0 {
        match parse_uuid(sheets[0].0.as_str()) {
            None => Err(SheetTargetError::InvalidSheetId),
            Some(id) => Ok(SheetTarget { sheet_id: id, relative_path: sheets[0].1.clone(), created: false }),
        }
    } else {
        let mut path: Vec<char> = Vec::new();
        push_chars(&mut path, &['s', 'h', 'e', 'e', 't', 's', '/']);
        let idc = chars_of(id_text.as_str());
        push_chars(&mut path, idc.as_slice());
        push_chars(&mut path, &['.', 'j', 's', 'o', 'n']);
        assert(path@ =~= new_sheet_path(imported_root));
        Ok(SheetTarget { sheet_id: imported_root, relative_path: string_from_chars(path.as_slice()), created: true })
    }
}

} // verus!
