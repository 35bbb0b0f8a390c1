//! The writes a KiCad footprint import makes: a reference to the pool when
//! the project lacks one, then, unless the import reused an identity from
//! an earlier import, the padstacks, the package, the footprint and the
//! import-map shard, each at its path under the pool.  Also which footprint
//! an edit addressed to a package (in the older, package-based form) goes to.
use vstd::prelude::*;
use crate::ids::{uuid_text, uuid_text_of};
use crate::library::{PoolPathError, pool_path_error, validate_project_local_pool_path};
use crate::render::push_chars;
use crate::text::{chars_of, starts_with, string_from_chars};

verus! {

pub open spec fn lit_padstacks_dir() -> Seq<char> {
    seq!['/', 'p', 'a', 'd', 's', 't', 'a', 'c', 'k', 's', '/']
}

pub open spec fn lit_packages_dir() -> Seq<char> {
    seq!['/', 'p', 'a', 'c', 'k', 'a', 'g', 'e', 's', '/']
}

pub open spec fn lit_footprints_dir() -> Seq<char> {
    seq!['/', 'f', 'o', 'o', 't', 'p', 'r', 'i', 'n', 't', 's', '/']
}

pub open spec fn lit_json() -> Seq<char> {
    seq!['.', 'j', 's', 'o', 'n']
}

pub open spec fn lit_footprint_import_map() -> Seq<char> {
    seq![
        '.', 'd', 'a', 't', 'u', 'm', '/', 'i', 'm', 'p', 'o', 'r', 't', '_', 'm', 'a', 'p', '/', 'k', 'i', 'c',
        'a', 'd', '-', 'f', 'o', 'o', 't', 'p', 'r', 'i', 'n', 't', '-'
    ]
}

/// The file of the pool object `id` in the directory `dir` of the pool.
pub open spec fn pool_object_path(pool_path: Seq<char>, dir: Seq<char>, id: u128) -> Seq<char> {
    pool_path + dir + uuid_text_of(id) + lit_json()
}

/// The import-map shard of the footprint import of the package `id`.
pub open spec fn footprint_import_map_path(id: u128) -> Seq<char> {
    lit_footprint_import_map() + uuid_text_of(id) + lit_json()
}

/// What a write of a footprint import does.
#[derive(Debug, Clone, Copy, PartialEq, Eq, Structural)]
pub enum FootprintImportKind {
    /// Add the pool to the project's pool references.
    AddPoolRef,
    /// Create a padstack of the footprint.
    CreatePadstack,
    /// Create the package.
    CreatePackage,
    /// Create the footprint.
    CreateFootprint,
    /// Create the import-map shard that records the import.
    CreateImportMap,
}

/// One write of a footprint import: what it does, the object it is about
/// (none for the pool reference) and the path it writes, relative to the
/// project root (the pool path itself for the pool reference).
#[derive(Debug, PartialEq, Eq)]
pub struct FootprintImportStep {
    pub kind: FootprintImportKind,
    pub object_id: Option<u128>,
    pub relative_path: String,
}

/// A write as plain values.
pub open spec fn step_view(s: FootprintImportStep) -> (FootprintImportKind, Option<u128>, Seq<char>) {
    (s.kind, s.object_id, s.relative_path@)
}

/// Whether the project's pool references name the pool path.
pub open spec fn pool_referenced(pools: Seq<String>, pool_path: Seq<char>) -> bool {
    exists|i: int| 0 <= i < pools.len() && (#[trigger] pools[i])@ == pool_path
}

/// The writes of a footprint import, in order.
pub open spec fn footprint_import_steps(
    pool_path: Seq<char>,
    referenced: bool,
    reused: bool,
    package_id: u128,
    footprint_id: u128,
    padstack_ids: Seq<u128>,
) -> Seq<(FootprintImportKind, Option<u128>, Seq<char>)> {
    let pool_ref = if referenced {
        Seq::empty()
    } else {
        seq![(FootprintImportKind::AddPoolRef, None::<u128>, pool_path)]
    };
    if reused {
        pool_ref
    } else {
        pool_ref + padstack_ids.map_values(
            |id: u128|
                (
                    FootprintImportKind::CreatePadstack,
                    Some(id),
                    pool_object_path(pool_path, lit_padstacks_dir(), id),
                ),
        ) + seq![
            (
                FootprintImportKind::CreatePackage,
                Some(package_id),
                pool_object_path(pool_path, lit_packages_dir(), package_id),
            ),
            (
                FootprintImportKind::CreateFootprint,
                Some(footprint_id),
                pool_object_path(pool_path, lit_footprints_dir(), footprint_id),
            ),
            (FootprintImportKind::CreateImportMap, Some(package_id), footprint_import_map_path(package_id)),
        ]
    }
}

/// Whether one of the project's pool references is the pool path.
pub fn project_references_pool(pools: &[String], pool_path: &str) -> (b: bool)
    ensures
        b == pool_referenced(pools@, pool_path@),
{
    let p = chars_of(pool_path);
    let mut i: usize = 0;
    while i < pools.len()
        invariant
            i <= pools.len(),
            p@ == pool_path@,
            forall|j: int| 0 <= j < i ==> (#[trigger] pools@[j])@ != pool_path@,
        decreases pools.len() - i,
    {
        if crate::forward_annotation::text_is(&pools[i], p.as_slice()) {
            return true;
        }
        i = i + 1;
    }
    false
}

fn object_path(pool: &[char], dir: &[char], id: u128) -> (s: String)
    ensures
        s@ == pool_object_path(pool@, dir@, id),
{
    let mut out: Vec<char> = Vec::new();
    push_chars(&mut out, pool);
    push_chars(&mut out, dir);
    let t = uuid_text(id);
    push_chars(&mut out, chars_of(t.as_str()).as_slice());
    push_chars(&mut out, &['.', 'j', 's', 'o', 'n']);
    string_from_chars(out.as_slice())
}

fn push_step(
    out: &mut Vec<FootprintImportStep>,
    kind: FootprintImportKind,
    object_id: Option<u128>,
    relative_path: String,
)
    ensures
        final(out)@.map_values(|s: FootprintImportStep| step_view(s)) == old(out)@.map_values(
            |s: FootprintImportStep| step_view(s),
        ).push((kind, object_id, relative_path@)),
{
    let ghost before = out@;
    out.push(FootprintImportStep { kind, object_id, relative_path });
    assert(out@.map_values(|s: FootprintImportStep| step_view(s)) =~= before.map_values(
        |s: FootprintImportStep| step_view(s),
    ).push((kind, object_id, relative_path@)));
}

/// The writes of a KiCad footprint import into the pool at `pool_path`:
/// the pool path must be a non-empty relative path without `..`; the pool
/// is referenced first when `project_pools` lacks it, and the objects are
/// created unless the import reused an existing identity.
pub fn plan_kicad_footprint_import(
    pool_path: &str,
    project_pools: &[String],
    reused_existing_identity: bool,
    package_id: u128,
    footprint_id: u128,
    padstack_ids: &[u128],
) -> (r: Result<Vec<FootprintImportStep>, PoolPathError>)
    ensures
        match pool_path_error(pool_path@) {
            Some(e) => r == Err::<Vec<FootprintImportStep>, PoolPathError>(e),
            None => r is Ok && r.unwrap()@.map_values(|s: FootprintImportStep| step_view(s))
                == footprint_import_steps(
                pool_path@,
                pool_referenced(project_pools@, pool_path@),
                reused_existing_identity,
                package_id,
                footprint_id,
                padstack_ids@,
            ),
        },
{
    match validate_project_local_pool_path(pool_path) {
        Err(e) => {
            return Err(e);
        },
        Ok(()) => {},
    }
    let p = chars_of(pool_path);
    let referenced = project_references_pool(project_pools, pool_path);
    let mut out: Vec<FootprintImportStep> = Vec::new();
    let ghost pool_ref: Seq<(FootprintImportKind, Option<u128>, Seq<char>)> = if referenced {
        Seq::empty()
    } else {
        seq![(FootprintImportKind::AddPoolRef, None::<u128>, pool_path@)]
    };
    assert(out@.map_values(|s: FootprintImportStep| step_view(s)) =~= Seq::<
        (FootprintImportKind, Option<u128>, Seq<char>),
    >::empty());
    if !referenced {
        push_step(&mut out, FootprintImportKind::AddPoolRef, None, string_from_chars(p.as_slice()));
    }
    assert(out@.map_values(|s: FootprintImportStep| step_view(s)) =~= pool_ref);
    if reused_existing_identity {
        return Ok(out);
    }
    let ghost pads = padstack_ids@.map_values(
        |id: u128|
            (
                FootprintImportKind::CreatePadstack,
                Some(id),
                pool_object_path(pool_path@, lit_padstacks_dir(), id),
            ),
    );
    let mut i: usize = 0;
    while i < padstack_ids.len()
        invariant
            i <= padstack_ids.len(),
            p@ == pool_path@,
            pads == padstack_ids@.map_values(
                |id: u128|
                    (
                        FootprintImportKind::CreatePadstack,
                        Some(id),
                        pool_object_path(pool_path@, lit_padstacks_dir(), id),
                    ),
            ),
            out@.map_values(|s: FootprintImportStep| step_view(s)) == pool_ref + pads.take(i as int),
        decreases padstack_ids.len() - i,
    {
        let id = padstack_ids[i];
        let path = object_path(p.as_slice(), &['/', 'p', 'a', 'd', 's', 't', 'a', 'c', 'k', 's', '/'], id);
        push_step(&mut out, FootprintImportKind::CreatePadstack, Some(id), path);
        assert(pads.take(i + 1) =~= pads.take(i as int).push(pads[i as int]));
        i = i + 1;
    }
    assert(pads.take(padstack_ids.len() as int) =~= pads);
    let path = object_path(p.as_slice(), &['/', 'p', 'a', 'c', 'k', 'a', 'g', 'e', 's', '/'], package_id);
    push_step(&mut out, FootprintImportKind::CreatePackage, Some(package_id), path);
    let path = object_path(p.as_slice(), &['/', 'f', 'o', 'o', 't', 'p', 'r', 'i', 'n', 't', 's', '/'], footprint_id);
    push_step(&mut out, FootprintImportKind::CreateFootprint, Some(footprint_id), path);
    let mut m: Vec<char> = Vec::new();
    push_chars(
        &mut m,
        &[
            '.', 'd', 'a', 't', 'u', 'm', '/', 'i', 'm', 'p', 'o', 'r', 't', '_', 'm', 'a', 'p', '/', 'k', 'i',
            'c', 'a', 'd', '-', 'f', 'o', 'o', 't', 'p', 'r', 'i', 'n', 't', '-',
        ],
    );
    let t = uuid_text(package_id);
    push_chars(&mut m, chars_of(t.as_str()).as_slice());
    push_chars(&mut m, &['.', 'j', 's', 'o', 'n']);
    push_step(&mut out, FootprintImportKind::CreateImportMap, Some(package_id), string_from_chars(m.as_slice()));
    Ok(out)
}

/// A footprint of the project's pools: its id, the path of its source
/// shard, and the package it names (as text), if it names one.
pub struct FootprintShard {
    pub footprint: u128,
    pub relative_path: String,
    pub package: Option<String>,
}

/// Why no footprint can take an edit addressed to a package.
#[derive(Debug, Clone, Copy, PartialEq, Eq, Structural)]
pub enum LegacyFootprintError {
    /// No footprint of the pool is for the package.
    NoFootprint,
    /// More than one footprint of the pool is for the package.
    Ambiguous,
}

/// The footprints, in order, stored under the pool's `footprints`
/// directory that name the package.
pub open spec fn footprints_for_package(shards: Seq<FootprintShard>, pool_path: Seq<char>, package: u128) -> Seq<
    (u128, Seq<char>),
>
    decreases shards.len(),
{
    if shards.len() == 0 {
        Seq::empty()
    } else {
        let rest = footprints_for_package(shards.drop_last(), pool_path, package);
        let s = shards.last();
        let prefix = pool_path + lit_footprints_dir();
        if prefix.len() <= s.relative_path@.len() && s.relative_path@.take(prefix.len() as int) == prefix
            && s.package is Some && s.package.unwrap()@ == uuid_text_of(package) {
            rest.push((s.footprint, s.relative_path@))
        } else {
            rest
        }
    }
}

/// The one footprint of the pool, stored under `<pool>/footprints/`, that
/// names the package: an edit addressed to the package goes to it.
pub fn legacy_target_footprint_for_package(pool_path: &str, package_id: u128, footprints: &[FootprintShard]) -> (r:
    Result<(u128, String), LegacyFootprintError>)
    ensures
        ({
            let m = footprints_for_package(footprints@, pool_path@, package_id);
            if m.len() == 1 {
                r is Ok && r.unwrap().0 == m[0].0 && r.unwrap().1@ == m[0].1
            } else if m.len() == 0 {
                r == Err::<(u128, String), LegacyFootprintError>(LegacyFootprintError::NoFootprint)
            } else {
                r == Err::<(u128, String), LegacyFootprintError>(LegacyFootprintError::Ambiguous)
            }
        }),
{
    let mut prefix: Vec<char> = Vec::new();
    push_chars(&mut prefix, chars_of(pool_path).as_slice());
    push_chars(&mut prefix, &['/', 'f', 'o', 'o', 't', 'p', 'r', 'i', 'n', 't', 's', '/']);
    assert(prefix@ =~= pool_path@ + lit_footprints_dir());
    let want = uuid_text(package_id);
    let mut found: Option<(u128, String)> = None;
    let mut count: usize = 0;
    let mut i: usize = 0;
    while i < footprints.len()
        invariant
            i <= footprints.len(),
            prefix@ == pool_path@ + lit_footprints_dir(),
            want@ == uuid_text_of(package_id),
            count <= i,
            count == footprints_for_package(footprints@.take(i as int), pool_path@, package_id).len(),
            count >= 1 ==> found is Some && found.unwrap().0 == footprints_for_package(
                footprints@.take(i as int),
                pool_path@,
                package_id,
            )[0].0 && found.unwrap().1@ == footprints_for_package(footprints@.take(i as int), pool_path@, package_id)[0].1,
        decreases footprints.len() - i,
    {
        let ghost before = footprints_for_package(footprints@.take(i as int), pool_path@, package_id);
        proof {
            let next = footprints@.take(i + 1);
            assert(next.drop_last() =~= footprints@.take(i as int));
            assert(next.last() == footprints@[i as int]);
        }
        let s = &footprints[i];
        let in_pool = starts_with(chars_of(s.relative_path.as_str()).as_slice(), prefix.as_slice());
        let for_package = match &s.package {
            Some(p) => crate::text::chars_eq(chars_of(p.as_str()).as_slice(), chars_of(want.as_str()).as_slice()),
            None => false,
        };
        if in_pool && for_package {
            if count == 0 {
                found = Some((s.footprint, crate::forward_annotation::copy_text(&s.relative_path)));
            }
            count = count + 1;
            proof {
                let after = footprints_for_package(footprints@.take(i + 1), pool_path@, package_id);
                assert(after == before.push((s.footprint, s.relative_path@)));
                assert(after[0] == if before.len() == 0 { (s.footprint, s.relative_path@) } else { before[0] });
            }
        }
        i = i + 1;
    }
    assert(footprints@.take(footprints.len() as int) =~= footprints@);
    if count == 1 {
        match found {
            Some(f) => Ok(f),
            None => Err(LegacyFootprintError::NoFootprint),
        }
    } else if count == 0 {
        Err(LegacyFootprintError::NoFootprint)
    } else {
        Err(LegacyFootprintError::Ambiguous)
    }
}

} // verus!
