//! The model blobs of a project's pools as the pool-model query reports
//! them: which files count as blobs, whether their bytes match the hash they
//! are named by, their UUIDs, which part attachments name them, and their
//! order.
use vstd::prelude::*;
use crate::forward_annotation::{compare_strings, copy_text};
use crate::geometry::PathOrder;
use crate::ids::{hex_text, sha256_hex, sha256_of, uuid_v5, uuid_v5_of};
use crate::ordering::{
    SortKeyed, is_key_sorted, keys_order, lemma_keys_le_trans, lemma_keys_order4, lemma_keys_order_flip,
    stable_sort_by_key, stable_sorted,
};
use crate::pool::{model_blob_name, parse_model_blob_filename};
use crate::render::push_chars;
use crate::text::{chars_eq, chars_of, string_from_chars};

verus! {

/// The URL namespace of name-based UUIDs, `6ba7b811-9dad-11d1-80b4-00c04fd430c8`.
pub const NAMESPACE_URL: u128 = 0x6ba7b811_9dad_11d1_80b4_00c04fd430c8;

/// A file found in a pool's `models/<role>/` directory, with its bytes.
pub struct FoundModelBlob {
    pub pool_path: String,
    pub role: String,
    pub file_name: String,
    pub relative_path: String,
    pub bytes: Vec<u8>,
}

/// A part's model attachment, naming a blob by its hash.
pub struct ModelAttachmentRef {
    pub sha256: String,
    pub part_uuid: u128,
    pub attachment_uuid: u128,
    pub relative_path: String,
}

/// A part attachment as a model blob's report lists it.
#[derive(Debug, PartialEq, Eq)]
pub struct PoolModelAttachment {
    pub part_uuid: u128,
    pub attachment_uuid: u128,
    pub relative_path: String,
}

/// What the pool-model query reports of one blob.
#[derive(Debug, PartialEq, Eq)]
pub struct PoolModelView {
    pub pool_path: String,
    pub role: String,
    pub relative_path: String,
    pub sha256: String,
    pub computed_sha256: String,
    pub hash_matches: bool,
    pub extension: String,
    pub size_bytes: u64,
    pub model_uuid: u128,
    pub referenced: bool,
    pub orphaned: bool,
    pub attachment_count: usize,
    pub attachments: Vec<PoolModelAttachment>,
}

impl SortKeyed for PoolModelAttachment {
    /// Attachments are ordered by part, then by attachment.
    open spec fn key_rel(&self, other: &Self) -> PathOrder {
        if self.part_uuid < other.part_uuid {
            PathOrder::Less
        } else if self.part_uuid > other.part_uuid {
            PathOrder::Greater
        } else if self.attachment_uuid < other.attachment_uuid {
            PathOrder::Less
        } else if self.attachment_uuid > other.attachment_uuid {
            PathOrder::Greater
        } else {
            PathOrder::Equal
        }
    }

    proof fn lemma_key_rel_flip(a: Self, b: Self) {
    }

    proof fn lemma_key_le_trans(a: Self, b: Self, c: Self) {
    }

    fn compare_keys(&self, other: &Self) -> (o: PathOrder) {
        if self.part_uuid < other.part_uuid {
            PathOrder::Less
        } else if self.part_uuid > other.part_uuid {
            PathOrder::Greater
        } else if self.attachment_uuid < other.attachment_uuid {
            PathOrder::Less
        } else if self.attachment_uuid > other.attachment_uuid {
            PathOrder::Greater
        } else {
            PathOrder::Equal
        }
    }
}

pub open spec fn model_keys(v: PoolModelView) -> Seq<Seq<char>> {
    seq![v.pool_path@, v.role@, v.sha256@, v.extension@]
}

impl SortKeyed for PoolModelView {
    /// Blobs are ordered by pool, role, hash and extension.
    open spec fn key_rel(&self, other: &Self) -> PathOrder {
        keys_order(model_keys(*self), model_keys(*other))
    }

    proof fn lemma_key_rel_flip(a: Self, b: Self) {
        lemma_keys_order_flip(model_keys(a), model_keys(b));
    }

    proof fn lemma_key_le_trans(a: Self, b: Self, c: Self) {
        lemma_keys_le_trans(model_keys(a), model_keys(b), model_keys(c));
    }

    fn compare_keys(&self, other: &Self) -> (o: PathOrder) {
        proof {
            lemma_keys_order4(model_keys(*self), model_keys(*other));
        }
        let o = compare_strings(&self.pool_path, &other.pool_path);
        if o != PathOrder::Equal {
            return o;
        }
        let o = compare_strings(&self.role, &other.role);
        if o != PathOrder::Equal {
            return o;
        }
        let o = compare_strings(&self.sha256, &other.sha256);
        if o != PathOrder::Equal {
            return o;
        }
        compare_strings(&self.extension, &other.extension)
    }
}

/// An absent filter passes every value; a given one passes only itself.
pub open spec fn passes(filter: Option<&str>, value: Seq<char>) -> bool {
    match filter {
        None => true,
        Some(f) => f@ == value,
    }
}

/// A found file is reported when its name reads as `<sha256>.<ext>` and
/// its pool, role and hash pass the filters.
pub open spec fn selects(
    b: FoundModelBlob,
    pool_filter: Option<&str>,
    role_filter: Option<&str>,
    sha_filter: Option<&str>,
) -> bool {
    &&& passes(pool_filter, b.pool_path@)
    &&& passes(role_filter, b.role@)
    &&& model_blob_name(b.file_name@) is Some
    &&& passes(sha_filter, model_blob_name(b.file_name@).unwrap().0)
}

/// The found files that are reported, in the order found.
pub open spec fn selected(
    found: Seq<FoundModelBlob>,
    pool_filter: Option<&str>,
    role_filter: Option<&str>,
    sha_filter: Option<&str>,
) -> Seq<FoundModelBlob>
    decreases found.len(),
{
    if found.len() == 0 {
        Seq::empty()
    } else {
        let rest = selected(found.drop_last(), pool_filter, role_filter, sha_filter);
        if selects(found.last(), pool_filter, role_filter, sha_filter) {
            rest.push(found.last())
        } else {
            rest
        }
    }
}

/// The text from which a blob's UUID is made.
pub open spec fn pool_model_material(sha: Seq<char>) -> Seq<char> {
    seq!['d', 'a', 't', 'u', 'm', '-', 'e', 'd', 'a', ':', 'p', 'o', 'o', 'l', '-', 'm', 'o', 'd', 'e', 'l', ':']
        + sha
}

pub open spec fn attachment_of(a: ModelAttachmentRef) -> PoolModelAttachment {
    PoolModelAttachment {
        part_uuid: a.part_uuid,
        attachment_uuid: a.attachment_uuid,
        relative_path: a.relative_path,
    }
}

/// The attachments that name the hash `sha`, in the order given.
pub open spec fn attachments_naming(refs: Seq<ModelAttachmentRef>, sha: Seq<char>) -> Seq<PoolModelAttachment>
    decreases refs.len(),
{
    if refs.len() == 0 {
        Seq::empty()
    } else {
        let rest = attachments_naming(refs.drop_last(), sha);
        if refs.last().sha256@ == sha {
            rest.push(attachment_of(refs.last()))
        } else {
            rest
        }
    }
}

/// `v` reports the found file `b`: its hash and extension from the file
/// name, the digest of its bytes and whether it matches, its size, its UUID
/// (name-based, in the URL namespace, from `datum-eda:pool-model:` and the
/// hash), and the attachments naming its hash, ordered by part and
/// attachment; it is referenced when some attachment names it.
pub open spec fn describes_model(v: PoolModelView, b: FoundModelBlob, refs: Seq<ModelAttachmentRef>) -> bool {
    let sha = model_blob_name(b.file_name@).unwrap().0;
    let ext = model_blob_name(b.file_name@).unwrap().1;
    let digest = hex_text(sha256_of(b.bytes@));
    &&& v.pool_path@ == b.pool_path@
    &&& v.role@ == b.role@
    &&& v.relative_path@ == b.relative_path@
    &&& v.sha256@ == sha
    &&& v.extension@ == ext
    &&& v.computed_sha256@ == digest
    &&& v.hash_matches == (sha == digest)
    &&& v.size_bytes == b.bytes@.len()
    &&& v.model_uuid == uuid_v5_of(NAMESPACE_URL, pool_model_material(sha))
    &&& v.attachments@ == stable_sorted(attachments_naming(refs, sha))
    &&& v.attachment_count == v.attachments@.len()
    &&& v.referenced == (v.attachments@.len() > 0)
    &&& v.orphaned == !v.referenced
}

fn passes_filter(filter: Option<&str>, value: &String) -> (b: bool)
    ensures
        b == passes(filter, value@),
{
    match filter {
        None => true,
        Some(f) => chars_eq(chars_of(f).as_slice(), chars_of(value.as_str()).as_slice()),
    }
}

/// The attachments naming `sha`, ordered by part and attachment.
fn attachments_for(refs: &[ModelAttachmentRef], sha: &String) -> (r: Vec<PoolModelAttachment>)
    ensures
        r@ == stable_sorted(attachments_naming(refs@, sha@)),
{
    let shac = chars_of(sha.as_str());
    let mut out: Vec<PoolModelAttachment> = Vec::new();
    let mut i: usize = 0;
    assert(refs@.take(0) =~= Seq::<ModelAttachmentRef>::empty());
    while i < refs.len()
        invariant
            i <= refs.len(),
            shac@ == sha@,
            out@ == attachments_naming(refs@.take(i as int), sha@),
        decreases refs.len() - i,
    {
        proof {
            let next = refs@.take(i + 1);
            assert(next.drop_last() =~= refs@.take(i as int));
            assert(next.last() == refs@[i as int]);
        }
        let a = &refs[i];
        if chars_eq(chars_of(a.sha256.as_str()).as_slice(), shac.as_slice()) {
            out.push(
                PoolModelAttachment {
                    part_uuid: a.part_uuid,
                    attachment_uuid: a.attachment_uuid,
                    relative_path: copy_text(&a.relative_path),
                },
            );
        }
        i = i + 1;
    }
    assert(refs@.take(refs.len() as int) =~= refs@);
    stable_sort_by_key(out)
}

/// The UUID of the blob with hash `sha`.
fn pool_model_uuid(sha: &String) -> (r: u128)
    ensures
        r == uuid_v5_of(NAMESPACE_URL, pool_model_material(sha@)),
{
    let mut material: Vec<char> = Vec::new();
    push_chars(
        &mut material,
        &['d', 'a', 't', 'u', 'm', '-', 'e', 'd', 'a', ':', 'p', 'o', 'o', 'l', '-', 'm', 'o', 'd', 'e', 'l', ':'],
    );
    push_chars(&mut material, chars_of(sha.as_str()).as_slice());
    assert(material@ =~= pool_model_material(sha@));
    let name = string_from_chars(material.as_slice());
    uuid_v5(NAMESPACE_URL, name.as_str())
}

/// The report of one found file whose name reads as a blob name.
fn model_view(b: &FoundModelBlob, sha: String, extension: String, refs: &[ModelAttachmentRef]) -> (v: PoolModelView)
    requires
        model_blob_name(b.file_name@) is Some,
        sha@ == model_blob_name(b.file_name@).unwrap().0,
        extension@ == model_blob_name(b.file_name@).unwrap().1,
    ensures
        describes_model(v, *b, refs@),
{
    let computed = sha256_hex(b.bytes.as_slice());
    let hash_matches = chars_eq(chars_of(sha.as_str()).as_slice(), chars_of(computed.as_str()).as_slice());
    let model_uuid = pool_model_uuid(&sha);
    let attachments = attachments_for(refs, &sha);
    let n = attachments.len();
    let referenced = n > 0;
    PoolModelView {
        pool_path: copy_text(&b.pool_path),
        role: copy_text(&b.role),
        relative_path: copy_text(&b.relative_path),
        sha256: sha,
        computed_sha256: computed,
        hash_matches,
        extension,
        size_bytes: b.bytes.len() as u64,
        model_uuid,
        referenced,
        orphaned: !referenced,
        attachment_count: n,
        attachments,
    }
}

/// The pool-model query over the files found in the pools' model
/// directories: each file whose name reads as `<sha256>.<ext>` and whose
/// pool, role and hash pass the filters is reported, with the attachments
/// that name its hash; the reports are ordered by pool, role, hash and
/// extension, files with equal keys keeping the order found.
pub fn pool_model_views(
    found: &[FoundModelBlob],
    attachments: &[ModelAttachmentRef],
    pool_filter: Option<&str>,
    role_filter: Option<&str>,
    sha_filter: Option<&str>,
) -> (r: Vec<PoolModelView>)
    ensures
        exists|u: Seq<PoolModelView>|
            {
                &&& u.len() == selected(found@, pool_filter, role_filter, sha_filter).len()
                &&& forall|i: int|
                    0 <= i < u.len() ==> describes_model(
                        #[trigger] u[i],
                        selected(found@, pool_filter, role_filter, sha_filter)[i],
                        attachments@,
                    )
                &&& r@ == stable_sorted(u)
            },
        is_key_sorted(r@),
{
    let mut unsorted: Vec<PoolModelView> = Vec::new();
    let mut i: usize = 0;
    assert(found@.take(0) =~= Seq::<FoundModelBlob>::empty());
    while i < found.len()
        invariant
            i <= found.len(),
            unsorted@.len() == selected(found@.take(i as int), pool_filter, role_filter, sha_filter).len(),
            forall|k: int|
                0 <= k < unsorted@.len() ==> describes_model(
                    #[trigger] unsorted@[k],
                    selected(found@.take(i as int), pool_filter, role_filter, sha_filter)[k],
                    attachments@,
                ),
        decreases found.len() - i,
    {
        let ghost prev = selected(found@.take(i as int), pool_filter, role_filter, sha_filter);
        proof {
            let next = found@.take(i + 1);
            assert(next.drop_last() =~= found@.take(i as int));
            assert(next.last() == found@[i as int]);
        }
        let b = &found[i];
        if passes_filter(pool_filter, &b.pool_path) && passes_filter(role_filter, &b.role) {
            match parse_model_blob_filename(b.file_name.as_str()) {
                None => {},
                Some((sha, extension)) => {
                    if passes_filter(sha_filter, &sha) {
                        let v = model_view(b, sha, extension, attachments);
                        unsorted.push(v);
                        proof {
                            let cur = selected(found@.take(i + 1), pool_filter, role_filter, sha_filter);
                            assert(cur == prev.push(found@[i as int]));
                            assert forall|k: int| 0 <= k < unsorted@.len() implies describes_model(
                                #[trigger] unsorted@[k],
                                cur[k],
                                attachments@,
                            ) by {
                                if k < prev.len() {
                                    assert(cur[k] == prev[k]);
                                }
                            }
                        }
                    }
                },
            }
        }
        i = i + 1;
    }
    assert(found@.take(found.len() as int) =~= found@);
    stable_sort_by_key(unsorted)
}

} // verus!
