//! The project inspection report: the project's identifiers as text, and
//! how many components carry persisted graphics and how many persisted
//! graphic entries the board holds.
use vstd::prelude::*;
use crate::ids::{uuid_text, uuid_text_of};
use crate::text::{chars_eq, chars_of, string_from_chars};

verus! {

/// A component-keyed map of the board, as the number of entries under each
/// component key.
pub type EntryCounts = Vec<(String, usize)>;

/// The board's component-keyed graphic maps, each as entry counts.
pub struct ComponentGraphicMaps {
    pub silkscreen_texts: EntryCounts,
    pub silkscreen_lines: EntryCounts,
    pub silkscreen_arcs: EntryCounts,
    pub silkscreen_circles: EntryCounts,
    pub silkscreen_polygons: EntryCounts,
    pub silkscreen_polylines: EntryCounts,
    pub mechanical_texts: EntryCounts,
    pub mechanical_lines: EntryCounts,
    pub mechanical_arcs: EntryCounts,
    pub mechanical_circles: EntryCounts,
    pub mechanical_polygons: EntryCounts,
    pub mechanical_polylines: EntryCounts,
    pub pads: EntryCounts,
    pub models_3d: EntryCounts,
}

/// Sizes of the project's other collections, reported as they are.
#[derive(Debug, Clone, Copy, PartialEq, Eq, Structural)]
pub struct BoardObjectCounts {
    pub sheets: usize,
    pub sheet_definitions: usize,
    pub sheet_instances: usize,
    pub variants: usize,
    pub board_pads: usize,
    pub nets: usize,
    pub tracks: usize,
    pub vias: usize,
    pub zones: usize,
    pub rules: usize,
}

/// What inspecting a project reports of its identifiers, pools and board.
#[derive(Debug, PartialEq, Eq)]
pub struct NativeProjectInspectReport {
    pub project_uuid: String,
    pub schematic_uuid: String,
    pub board_uuid: String,
    pub pools: usize,
    pub board_package_count: usize,
    pub board_components_with_persisted_silkscreen: usize,
    pub board_components_with_persisted_mechanical: usize,
    pub board_components_with_persisted_pads: usize,
    pub board_components_with_persisted_models_3d: usize,
    pub persisted_component_silkscreen_texts: usize,
    pub persisted_component_silkscreen_lines: usize,
    pub persisted_component_silkscreen_arcs: usize,
    pub persisted_component_silkscreen_circles: usize,
    pub persisted_component_silkscreen_polygons: usize,
    pub persisted_component_silkscreen_polylines: usize,
    pub persisted_component_mechanical_texts: usize,
    pub persisted_component_mechanical_lines: usize,
    pub persisted_component_mechanical_arcs: usize,
    pub persisted_component_mechanical_circles: usize,
    pub persisted_component_mechanical_polygons: usize,
    pub persisted_component_mechanical_polylines: usize,
    pub persisted_component_pads: usize,
    pub persisted_component_models_3d: usize,
    pub counts: BoardObjectCounts,
}

/// How many entries the map holds under `key` (the first such key), or 0.
pub open spec fn entry_len(m: Seq<(String, usize)>, key: Seq<char>) -> nat
    decreases m.len(),
{
    if m.len() == 0 {
        0
    } else if m[0].0@ == key {
        m[0].1 as nat
    } else {
        entry_len(m.drop_first(), key)
    }
}

/// How many entries the map holds in all.
pub open spec fn map_total(m: Seq<(String, usize)>) -> nat
    decreases m.len(),
{
    if m.len() == 0 {
        0
    } else {
        map_total(m.drop_last()) + m.last().1 as nat
    }
}

/// Which persisted graphics a component is counted for.
#[derive(Debug, Clone, Copy, PartialEq, Eq, Structural)]
pub enum PersistedGraphics {
    Silkscreen,
    Mechanical,
    Pads,
    Models3d,
}

/// Whether the component `key` has persisted graphics of the kind: an
/// entry under its key in one of the silkscreen maps, one of the mechanical
/// maps, the pad map or the 3D-model map.
pub open spec fn has_persisted(m: ComponentGraphicMaps, kind: PersistedGraphics, key: Seq<char>) -> bool {
    match kind {
        PersistedGraphics::Silkscreen => entry_len(m.silkscreen_texts@, key) > 0 || entry_len(m.silkscreen_lines@, key)
            > 0 || entry_len(m.silkscreen_arcs@, key) > 0 || entry_len(m.silkscreen_circles@, key) > 0 || entry_len(
            m.silkscreen_polygons@,
            key,
        ) > 0 || entry_len(m.silkscreen_polylines@, key) > 0,
        PersistedGraphics::Mechanical => entry_len(m.mechanical_texts@, key) > 0 || entry_len(m.mechanical_lines@, key)
            > 0 || entry_len(m.mechanical_arcs@, key) > 0 || entry_len(m.mechanical_circles@, key) > 0 || entry_len(
            m.mechanical_polygons@,
            key,
        ) > 0 || entry_len(m.mechanical_polylines@, key) > 0,
        PersistedGraphics::Pads => entry_len(m.pads@, key) > 0,
        PersistedGraphics::Models3d => entry_len(m.models_3d@, key) > 0,
    }
}

/// How many of the packages have persisted graphics of the kind.
pub open spec fn packages_with(packages: Seq<String>, m: ComponentGraphicMaps, kind: PersistedGraphics) -> nat
    decreases packages.len(),
{
    if packages.len() == 0 {
        0
    } else {
        packages_with(packages.drop_last(), m, kind) + if has_persisted(m, kind, packages.last()@) {
            1nat
        } else {
            0nat
        }
    }
}

/// Every map's total fits in a `usize`.
pub open spec fn totals_fit(m: ComponentGraphicMaps) -> bool {
    &&& map_total(m.silkscreen_texts@) <= usize::MAX
    &&& map_total(m.silkscreen_lines@) <= usize::MAX
    &&& map_total(m.silkscreen_arcs@) <= usize::MAX
    &&& map_total(m.silkscreen_circles@) <= usize::MAX
    &&& map_total(m.silkscreen_polygons@) <= usize::MAX
    &&& map_total(m.silkscreen_polylines@) <= usize::MAX
    &&& map_total(m.mechanical_texts@) <= usize::MAX
    &&& map_total(m.mechanical_lines@) <= usize::MAX
    &&& map_total(m.mechanical_arcs@) <= usize::MAX
    &&& map_total(m.mechanical_circles@) <= usize::MAX
    &&& map_total(m.mechanical_polygons@) <= usize::MAX
    &&& map_total(m.mechanical_polylines@) <= usize::MAX
    &&& map_total(m.pads@) <= usize::MAX
    &&& map_total(m.models_3d@) <= usize::MAX
}

fn entry_len_of(m: &[(String, usize)], key: &[char]) -> (n: usize)
    ensures
        n == entry_len(m@, key@),
{
    let mut i: usize = 0;
    assert(m@.skip(0) =~= m@);
    while i < m.len()
        invariant
            i <= m.len(),
            entry_len(m@, key@) == entry_len(m@.skip(i as int), key@),
        decreases m.len() - i,
    {
        let ghost rest = m@.skip(i as int);
        assert(rest[0] == m@[i as int]);
        if chars_eq(chars_of(m[i].0.as_str()).as_slice(), key) {
            return m[i].1;
        }
        assert(rest.drop_first() =~= m@.skip(i + 1));
        i = i + 1;
    }
    assert(m@.skip(i as int).len() == 0);
    0
}

proof fn lemma_map_total_prefix(m: Seq<(String, usize)>, i: int)
    requires
        0 <= i <= m.len(),
    ensures
        map_total(m.take(i)) <= map_total(m),
    decreases m.len(),
{
    if i < m.len() {
        assert(m.drop_last().take(i) =~= m.take(i));
        lemma_map_total_prefix(m.drop_last(), i);
    } else {
        assert(m.take(i) =~= m);
    }
}

fn total_of(m: &[(String, usize)]) -> (n: usize)
    requires
        map_total(m@) <= usize::MAX,
    ensures
        n == map_total(m@),
{
    let mut n: usize = 0;
    let mut i: usize = 0;
    assert(m@.take(0) =~= Seq::<(String, usize)>::empty());
    while i < m.len()
        invariant
            i <= m.len(),
            map_total(m@) <= usize::MAX,
            n == map_total(m@.take(i as int)),
        decreases m.len() - i,
    {
        proof {
            let next = m@.take(i + 1);
            assert(next.drop_last() =~= m@.take(i as int));
            assert(next.last() == m@[i as int]);
            lemma_map_total_prefix(m@, i + 1);
        }
        n = n + m[i].1;
        i = i + 1;
    }
    assert(m@.take(m.len() as int) =~= m@);
    n
}

fn has_persisted_of(m: &ComponentGraphicMaps, kind: PersistedGraphics, key: &[char]) -> (b: bool)
    ensures
        b == has_persisted(*m, kind, key@),
{
    match kind {
        PersistedGraphics::Silkscreen => entry_len_of(&m.silkscreen_texts, key) > 0 || entry_len_of(
            &m.silkscreen_lines,
            key,
        ) > 0 || entry_len_of(&m.silkscreen_arcs, key) > 0 || entry_len_of(&m.silkscreen_circles, key) > 0
            || entry_len_of(&m.silkscreen_polygons, key) > 0 || entry_len_of(&m.silkscreen_polylines, key) > 0,
        PersistedGraphics::Mechanical => entry_len_of(&m.mechanical_texts, key) > 0 || entry_len_of(
            &m.mechanical_lines,
            key,
        ) > 0 || entry_len_of(&m.mechanical_arcs, key) > 0 || entry_len_of(&m.mechanical_circles, key) > 0
            || entry_len_of(&m.mechanical_polygons, key) > 0 || entry_len_of(&m.mechanical_polylines, key) > 0,
        PersistedGraphics::Pads => entry_len_of(&m.pads, key) > 0,
        PersistedGraphics::Models3d => entry_len_of(&m.models_3d, key) > 0,
    }
}

proof fn lemma_packages_with_bounded(packages: Seq<String>, m: ComponentGraphicMaps, kind: PersistedGraphics)
    ensures
        packages_with(packages, m, kind) <= packages.len(),
    decreases packages.len(),
{
    if packages.len() > 0 {
        lemma_packages_with_bounded(packages.drop_last(), m, kind);
    }
}

fn count_packages_with(packages: &[String], m: &ComponentGraphicMaps, kind: PersistedGraphics) -> (n: usize)
    ensures
        n == packages_with(packages@, *m, kind),
{
    let mut n: usize = 0;
    let mut i: usize = 0;
    assert(packages@.take(0) =~= Seq::<String>::empty());
    while i < packages.len()
        invariant
            i <= packages.len(),
            n == packages_with(packages@.take(i as int), *m, kind),
        decreases packages.len() - i,
    {
        proof {
            let next = packages@.take(i + 1);
            assert(next.drop_last() =~= packages@.take(i as int));
            assert(next.last() == packages@[i as int]);
            lemma_packages_with_bounded(packages@.take(i as int), *m, kind);
        }
        if has_persisted_of(m, kind, chars_of(packages[i].as_str()).as_slice()) {
            n = n + 1;
        }
        i = i + 1;
    }
    assert(packages@.take(packages.len() as int) =~= packages@);
    n
}

/// Whether the map has an entry under `key`.
pub open spec fn has_key(m: Seq<(String, usize)>, key: Seq<char>) -> bool {
    exists|i: int| 0 <= i < m.len() && (#[trigger] m[i]).0@ == key
}

/// `new` is `old` with an empty entry under `key` added when it had none.
pub open spec fn entry_ensured(old: Seq<(String, usize)>, new: Seq<(String, usize)>, key: Seq<char>) -> bool {
    if has_key(old, key) {
        new == old
    } else {
        &&& new.len() == old.len() + 1
        &&& new.take(old.len() as int) == old
        &&& new.last().0@ == key
        &&& new.last().1 == 0
    }
}

/// The fourteen maps, in a fixed order.
pub open spec fn map_list(m: ComponentGraphicMaps) -> Seq<Seq<(String, usize)>> {
    seq![
        m.silkscreen_texts@, m.silkscreen_lines@, m.silkscreen_arcs@, m.silkscreen_circles@,
        m.silkscreen_polygons@, m.silkscreen_polylines@, m.mechanical_texts@, m.mechanical_lines@,
        m.mechanical_arcs@, m.mechanical_circles@, m.mechanical_polygons@, m.mechanical_polylines@,
        m.pads@, m.models_3d@,
    ]
}

proof fn lemma_entry_len_push_absent(m: Seq<(String, usize)>, key: Seq<char>, e: (String, usize), k: Seq<char>)
    requires
        !has_key(m, key),
        e.0@ == key,
        e.1 == 0,
    ensures
        entry_len(m.push(e), k) == entry_len(m, k),
        map_total(m.push(e)) == map_total(m),
    decreases m.len(),
{
    assert(m.push(e).drop_last() =~= m);
    if m.len() > 0 {
        assert(m.push(e)[0] == m[0]);
        assert(m.push(e).drop_first() =~= m.drop_first().push(e));
        assert(!has_key(m.drop_first(), key)) by {
            if has_key(m.drop_first(), key) {
                let i = choose|i: int| 0 <= i < m.drop_first().len() && (#[trigger] m.drop_first()[i]).0@ == key;
                assert(m[i + 1] == m.drop_first()[i]);
            }
        }
        lemma_entry_len_push_absent(m.drop_first(), key, e, k);
    } else {
        reveal_with_fuel(entry_len, 2);
    }
}

fn ensure_entry(m: &mut Vec<(String, usize)>, key: &[char])
    ensures
        entry_ensured(old(m)@, final(m)@, key@),
        forall|k: Seq<char>| entry_len(final(m)@, k) == entry_len(old(m)@, k),
        map_total(final(m)@) == map_total(old(m)@),
{
    let mut i: usize = 0;
    while i < m.len()
        invariant
            i <= m.len(),
            forall|j: int| 0 <= j < i ==> (#[trigger] m@[j]).0@ != key@,
        decreases m.len() - i,
    {
        if chars_eq(chars_of(m[i].0.as_str()).as_slice(), key) {
            assert(m@[i as int].0@ == key@);
            return;
        }
        i = i + 1;
    }
    let ghost before = m@;
    let e = (string_from_chars(key), 0usize);
    m.push(e);
    proof {
        assert forall|k: Seq<char>| entry_len(m@, k) == entry_len(before, k) by {
            lemma_entry_len_push_absent(before, key@, e, k);
        }
        lemma_entry_len_push_absent(before, key@, e, key@);
        assert(m@.take(before.len() as int) =~= before);
    }
}

/// Gives the component `key` an entry, empty if it had none, in each of the
/// board's component-keyed graphic maps; no entry count changes.
pub fn initialize_component_graphic_maps(maps: &mut ComponentGraphicMaps, key: &str)
    ensures
        forall|j: int| 0 <= j < 14 ==> entry_ensured(map_list(*old(maps))[j], #[trigger] map_list(*final(maps))[j], key@),
        forall|j: int, k: Seq<char>|
            0 <= j < 14 ==> #[trigger] entry_len(map_list(*final(maps))[j], k) == entry_len(map_list(*old(maps))[j], k),
        forall|j: int| 0 <= j < 14 ==> map_total(#[trigger] map_list(*final(maps))[j]) == map_total(map_list(*old(maps))[j]),
{
    let k = chars_of(key);
    ensure_entry(&mut maps.silkscreen_texts, k.as_slice());
    ensure_entry(&mut maps.silkscreen_lines, k.as_slice());
    ensure_entry(&mut maps.silkscreen_arcs, k.as_slice());
    ensure_entry(&mut maps.silkscreen_circles, k.as_slice());
    ensure_entry(&mut maps.silkscreen_polygons, k.as_slice());
    ensure_entry(&mut maps.silkscreen_polylines, k.as_slice());
    ensure_entry(&mut maps.mechanical_texts, k.as_slice());
    ensure_entry(&mut maps.mechanical_lines, k.as_slice());
    ensure_entry(&mut maps.mechanical_arcs, k.as_slice());
    ensure_entry(&mut maps.mechanical_circles, k.as_slice());
    ensure_entry(&mut maps.mechanical_polygons, k.as_slice());
    ensure_entry(&mut maps.mechanical_polylines, k.as_slice());
    ensure_entry(&mut maps.pads, k.as_slice());
    ensure_entry(&mut maps.models_3d, k.as_slice());
}

/// The inspection report of a project with the UUIDs `ids` (project,
/// schematic, board), the manifest's pools `pool_paths`, the board's
/// package keys `packages` and its component-keyed graphic maps: the UUIDs
/// as hyphenated lowercase text, the number of pools and packages, for each
/// kind of persisted graphics the number of packages with an entry in its
/// maps, and for each map the number of entries it holds in all.
pub fn native_project_inspect_report(
    ids: (u128, u128, u128),
    pool_paths: &[String],
    packages: &[String],
    maps: &ComponentGraphicMaps,
    counts: BoardObjectCounts,
) -> (r: NativeProjectInspectReport)
    requires
        totals_fit(*maps),
    ensures
        r.project_uuid@ == uuid_text_of(ids.0),
        r.schematic_uuid@ == uuid_text_of(ids.1),
        r.board_uuid@ == uuid_text_of(ids.2),
        r.pools == pool_paths@.len(),
        r.board_package_count == packages@.len(),
        r.board_components_with_persisted_silkscreen == packages_with(packages@, *maps, PersistedGraphics::Silkscreen),
        r.board_components_with_persisted_mechanical == packages_with(packages@, *maps, PersistedGraphics::Mechanical),
        r.board_components_with_persisted_pads == packages_with(packages@, *maps, PersistedGraphics::Pads),
        r.board_components_with_persisted_models_3d == packages_with(packages@, *maps, PersistedGraphics::Models3d),
        r.persisted_component_silkscreen_texts == map_total(maps.silkscreen_texts@),
        r.persisted_component_silkscreen_lines == map_total(maps.silkscreen_lines@),
        r.persisted_component_silkscreen_arcs == map_total(maps.silkscreen_arcs@),
        r.persisted_component_silkscreen_circles == map_total(maps.silkscreen_circles@),
        r.persisted_component_silkscreen_polygons == map_total(maps.silkscreen_polygons@),
        r.persisted_component_silkscreen_polylines == map_total(maps.silkscreen_polylines@),
        r.persisted_component_mechanical_texts == map_total(maps.mechanical_texts@),
        r.persisted_component_mechanical_lines == map_total(maps.mechanical_lines@),
        r.persisted_component_mechanical_arcs == map_total(maps.mechanical_arcs@),
        r.persisted_component_mechanical_circles == map_total(maps.mechanical_circles@),
        r.persisted_component_mechanical_polygons == map_total(maps.mechanical_polygons@),
        r.persisted_component_mechanical_polylines == map_total(maps.mechanical_polylines@),
        r.persisted_component_pads == map_total(maps.pads@),
        r.persisted_component_models_3d == map_total(maps.models_3d@),
        r.counts == counts,
{
    NativeProjectInspectReport {
        project_uuid: uuid_text(ids.0),
        schematic_uuid: uuid_text(ids.1),
        board_uuid: uuid_text(ids.2),
        pools: pool_paths.len(),
        board_package_count: packages.len(),
        board_components_with_persisted_silkscreen: count_packages_with(packages, maps, PersistedGraphics::Silkscreen),
        board_components_with_persisted_mechanical: count_packages_with(packages, maps, PersistedGraphics::Mechanical),
        board_components_with_persisted_pads: count_packages_with(packages, maps, PersistedGraphics::Pads),
        board_components_with_persisted_models_3d: count_packages_with(packages, maps, PersistedGraphics::Models3d),
        persisted_component_silkscreen_texts: total_of(&maps.silkscreen_texts),
        persisted_component_silkscreen_lines: total_of(&maps.silkscreen_lines),
        persisted_component_silkscreen_arcs: total_of(&maps.silkscreen_arcs),
        persisted_component_silkscreen_circles: total_of(&maps.silkscreen_circles),
        persisted_component_silkscreen_polygons: total_of(&maps.silkscreen_polygons),
        persisted_component_silkscreen_polylines: total_of(&maps.silkscreen_polylines),
        persisted_component_mechanical_texts: total_of(&maps.mechanical_texts),
        persisted_component_mechanical_lines: total_of(&maps.mechanical_lines),
        persisted_component_mechanical_arcs: total_of(&maps.mechanical_arcs),
        persisted_component_mechanical_circles: total_of(&maps.mechanical_circles),
        persisted_component_mechanical_polygons: total_of(&maps.mechanical_polygons),
        persisted_component_mechanical_polylines: total_of(&maps.mechanical_polylines),
        persisted_component_pads: total_of(&maps.pads),
        persisted_component_models_3d: total_of(&maps.models_3d),
        counts,
    }
}

} // verus!
