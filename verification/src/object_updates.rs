//! Edits of a project's output jobs, manufacturing plans and panel
//! projections: which requests are refused, and how an accepted one changes
//! the record (each accepted edit raises the record's revision by one).
use vstd::prelude::*;
use crate::render::push_chars;
use crate::text::{chars_of, string_from_chars};

verus! {

/// What an edit of an output job can change: its name, output directory,
/// manufacturing plan and variant, and its revision.
#[derive(Debug, Clone, PartialEq, Eq)]
pub struct OutputJobRecord {
    pub id: u128,
    pub name: String,
    pub output_dir: Option<String>,
    pub manufacturing_plan: Option<u128>,
    pub variant: Option<u128>,
    pub object_revision: u64,
}

/// An edit of an output job: new values, and which fields to clear (a clear
/// wins over a new value for the same field).
#[derive(Debug, Clone, PartialEq, Eq)]
pub struct OutputJobUpdate {
    pub name: Option<String>,
    pub output_dir: Option<String>,
    pub manufacturing_plan: Option<u128>,
    pub variant: Option<u128>,
    pub clear_manufacturing_plan: bool,
    pub clear_variant: bool,
    pub clear_output_dir: bool,
}

/// Why an edit of a project record is refused.
#[derive(Debug, Clone, Copy, PartialEq, Eq, Structural)]
pub enum UpdateError {
    /// The edit changes nothing.
    NoFields,
    /// The edit both sets and clears the variant.
    VariantConflict,
    /// The edit both sets and clears the panel projection.
    PanelProjectionConflict,
    /// The panel projection the edit names does not exist.
    PanelProjectionNotFound,
}

/// The edit names at least one field.
pub open spec fn output_job_update_names_a_field(u: OutputJobUpdate) -> bool {
    u.name is Some || u.output_dir is Some || u.manufacturing_plan is Some || u.variant is Some
        || u.clear_manufacturing_plan || u.clear_variant || u.clear_output_dir
}

/// The value a field takes: none when cleared, the new value when given,
/// the old value otherwise.
pub open spec fn updated<T>(prev: Option<T>, new: Option<T>, clear: bool) -> Option<T> {
    if clear {
        None
    } else if new is Some {
        new
    } else {
        prev
    }
}

/// Applies an edit to an output job: it must name a field; the name is
/// replaced when given, each of output directory, manufacturing plan and
/// variant is cleared when asked, else replaced when given; the revision
/// rises by one. A refused edit leaves the job as it was.
pub fn update_output_job(job: &mut OutputJobRecord, u: OutputJobUpdate) -> (r: Result<(), UpdateError>)
    requires
        old(job).object_revision < u64::MAX,
    ensures
        !output_job_update_names_a_field(u) ==> r == Err::<(), UpdateError>(UpdateError::NoFields) && *final(job)
            == *old(job),
        output_job_update_names_a_field(u) ==> {
            &&& r is Ok
            &&& final(job).id == old(job).id
            &&& final(job).name@ == match u.name {
                Some(n) => n@,
                None => old(job).name@,
            }
            &&& final(job).output_dir == updated(old(job).output_dir, u.output_dir, u.clear_output_dir)
            &&& final(job).manufacturing_plan == updated(
                old(job).manufacturing_plan,
                u.manufacturing_plan,
                u.clear_manufacturing_plan,
            )
            &&& final(job).variant == updated(old(job).variant, u.variant, u.clear_variant)
            &&& final(job).object_revision == old(job).object_revision + 1
        },
{
    if u.name.is_none() && u.output_dir.is_none() && u.manufacturing_plan.is_none() && u.variant.is_none()
        && !u.clear_manufacturing_plan && !u.clear_variant && !u.clear_output_dir {
        return Err(UpdateError::NoFields);
    }
    let OutputJobUpdate {
        name,
        output_dir,
        manufacturing_plan,
        variant,
        clear_manufacturing_plan,
        clear_variant,
        clear_output_dir,
    } = u;
    if let Some(n) = name {
        job.name = n;
    }
    if clear_output_dir {
        job.output_dir = None;
    } else if output_dir.is_some() {
        job.output_dir = output_dir;
    }
    if clear_manufacturing_plan {
        job.manufacturing_plan = None;
    } else if manufacturing_plan.is_some() {
        job.manufacturing_plan = manufacturing_plan;
    }
    if clear_variant {
        job.variant = None;
    } else if variant.is_some() {
        job.variant = variant;
    }
    job.object_revision = job.object_revision + 1;
    Ok(())
}

/// What an edit of a manufacturing plan can change: its name, file prefix,
/// variant and the board or panel projection it makes, and its revision.
#[derive(Debug, Clone, PartialEq, Eq)]
pub struct ManufacturingPlanRecord {
    pub id: u128,
    pub name: String,
    pub prefix: String,
    pub variant: Option<u128>,
    pub board_or_panel: u128,
    pub object_revision: u64,
}

/// An edit of a manufacturing plan.
#[derive(Debug, Clone, PartialEq, Eq)]
pub struct ManufacturingPlanUpdate {
    pub name: Option<String>,
    pub prefix: Option<String>,
    pub variant: Option<u128>,
    pub clear_variant: bool,
    pub panel_projection: Option<u128>,
    pub clear_panel_projection: bool,
}

/// Why the request itself is refused, before any plan is looked up: it
/// names no field, or both sets and clears the variant or the panel
/// projection (checked in that order).
pub open spec fn plan_update_request_error(u: ManufacturingPlanUpdate) -> Option<UpdateError> {
    if u.variant is None && !u.clear_variant && u.panel_projection is None && !u.clear_panel_projection
        && u.name is None && u.prefix is None {
        Some(UpdateError::NoFields)
    } else if u.variant is Some && u.clear_variant {
        Some(UpdateError::VariantConflict)
    } else if u.panel_projection is Some && u.clear_panel_projection {
        Some(UpdateError::PanelProjectionConflict)
    } else {
        None
    }
}

/// Checks a manufacturing plan edit request on its own.
pub fn check_manufacturing_plan_update(u: &ManufacturingPlanUpdate) -> (r: Result<(), UpdateError>)
    ensures
        match plan_update_request_error(*u) {
            Some(e) => r == Err::<(), UpdateError>(e),
            None => r is Ok,
        },
{
    if u.variant.is_none() && !u.clear_variant && u.panel_projection.is_none() && !u.clear_panel_projection
        && u.name.is_none() && u.prefix.is_none() {
        return Err(UpdateError::NoFields);
    }
    if u.variant.is_some() && u.clear_variant {
        return Err(UpdateError::VariantConflict);
    }
    if u.panel_projection.is_some() && u.clear_panel_projection {
        return Err(UpdateError::PanelProjectionConflict);
    }
    Ok(())
}

/// Applies an edit to a manufacturing plan: a request refused on its own
/// (see `plan_update_request_error`) is returned as its error; a named panel projection
/// must be among `panel_projections`; the name and prefix are replaced when
/// given, the variant cleared or replaced, and the plan made for the board
/// `board` when the panel projection is cleared, else for the panel
/// projection given; the revision rises by one. A refused edit leaves the
/// plan as it was.
pub fn apply_manufacturing_plan_update(
    plan: &mut ManufacturingPlanRecord,
    u: ManufacturingPlanUpdate,
    board: u128,
    panel_projections: &[u128],
) -> (r: Result<(), UpdateError>)
    requires
        old(plan).object_revision < u64::MAX,
    ensures
        plan_update_request_error(u) matches Some(e) ==> r == Err::<(), UpdateError>(e) && *final(plan) == *old(plan),
        plan_update_request_error(u) is None && (u.panel_projection matches Some(p) && !panel_projections@.contains(p))
            ==> r == Err::<(), UpdateError>(UpdateError::PanelProjectionNotFound) && *final(plan) == *old(plan),
        plan_update_request_error(u) is None && !(u.panel_projection matches Some(p) && !panel_projections@.contains(
            p,
        )) ==> {
            &&& r is Ok
            &&& final(plan).id == old(plan).id
            &&& final(plan).name@ == match u.name {
                Some(n) => n@,
                None => old(plan).name@,
            }
            &&& final(plan).prefix@ == match u.prefix {
                Some(p) => p@,
                None => old(plan).prefix@,
            }
            &&& final(plan).variant == updated(old(plan).variant, u.variant, u.clear_variant)
            &&& final(plan).board_or_panel == if u.clear_panel_projection {
                board
            } else {
                match u.panel_projection {
                    Some(p) => p,
                    None => old(plan).board_or_panel,
                }
            }
            &&& final(plan).object_revision == old(plan).object_revision + 1
        },
{
    if let Err(e) = check_manufacturing_plan_update(&u) {
        return Err(e);
    }
    if let Some(p) = u.panel_projection {
        let mut found = false;
        let mut i: usize = 0;
        while i < panel_projections.len()
            invariant
                i <= panel_projections.len(),
                found <==> exists|j: int| 0 <= j < i && panel_projections@[j] == p,
            decreases panel_projections.len() - i,
        {
            if panel_projections[i] == p {
                found = true;
            }
            i = i + 1;
        }
        if !found {
            proof {
                if panel_projections@.contains(p) {
                    let j = choose|j: int| 0 <= j < panel_projections@.len() && panel_projections@[j] == p;
                    assert(panel_projections@[j] == p);
                }
            }
            return Err(UpdateError::PanelProjectionNotFound);
        }
    }
    let ManufacturingPlanUpdate { name, prefix, variant, clear_variant, panel_projection, clear_panel_projection } = u;
    if let Some(n) = name {
        plan.name = n;
    }
    if let Some(p) = prefix {
        plan.prefix = p;
    }
    if clear_variant {
        plan.variant = None;
    } else if variant.is_some() {
        plan.variant = variant;
    }
    if clear_panel_projection {
        plan.board_or_panel = board;
    } else if let Some(p) = panel_projection {
        plan.board_or_panel = p;
    }
    plan.object_revision = plan.object_revision + 1;
    Ok(())
}

/// Where a board sits on a panel: the board, its offset and its rotation in
/// degrees.
#[derive(Debug, Clone, Copy, PartialEq, Eq, Structural)]
pub struct PanelBoardInstance {
    pub board: u128,
    pub x_nm: i64,
    pub y_nm: i64,
    pub rotation_deg: i32,
}

/// What an edit of a panel projection can change: its name, its board
/// instances, and its revision.
#[derive(Debug, Clone, PartialEq, Eq)]
pub struct PanelProjectionRecord {
    pub id: u128,
    pub name: String,
    pub board_instances: Vec<PanelBoardInstance>,
    pub object_revision: u64,
}

/// An edit of a panel projection: a new name, and new values for its first
/// board instance.
#[derive(Debug, Clone, PartialEq, Eq)]
pub struct PanelProjectionUpdate {
    pub name: Option<String>,
    pub board: Option<u128>,
    pub x_nm: Option<i64>,
    pub y_nm: Option<i64>,
    pub rotation_deg: Option<i32>,
}

/// The edit names at least one field.
pub open spec fn panel_update_names_a_field(u: PanelProjectionUpdate) -> bool {
    u.name is Some || u.board is Some || u.x_nm is Some || u.y_nm is Some || u.rotation_deg is Some
}

/// `v` when given, `prev` otherwise.
pub open spec fn given_or<T>(v: Option<T>, prev: T) -> T {
    match v {
        Some(x) => x,
        None => prev,
    }
}

/// The first board instance after an edit: the projection's first instance,
/// or the board `board` unmoved and unrotated when it has none, with the
/// values the edit gives.
pub open spec fn edited_first_instance(instances: Seq<PanelBoardInstance>, u: PanelProjectionUpdate, board: u128) -> PanelBoardInstance {
    let first = if instances.len() == 0 {
        PanelBoardInstance { board, x_nm: 0, y_nm: 0, rotation_deg: 0 }
    } else {
        instances[0]
    };
    PanelBoardInstance {
        board: given_or(u.board, first.board),
        x_nm: given_or(u.x_nm, first.x_nm),
        y_nm: given_or(u.y_nm, first.y_nm),
        rotation_deg: given_or(u.rotation_deg, first.rotation_deg),
    }
}

/// Applies an edit to a panel projection: it must name a field; the name is
/// replaced when given; a projection without board instances gains one of
/// the board `board` at the origin, unrotated; the first instance takes the
/// board, offset and rotation the edit gives, the others are kept; the
/// revision rises by one. A refused edit leaves the projection as it was.
pub fn update_panel_projection(panel: &mut PanelProjectionRecord, u: PanelProjectionUpdate, board: u128) -> (r: Result<
    (),
    UpdateError,
>)
    requires
        old(panel).object_revision < u64::MAX,
    ensures
        !panel_update_names_a_field(u) ==> r == Err::<(), UpdateError>(UpdateError::NoFields) && *final(panel)
            == *old(panel),
        panel_update_names_a_field(u) ==> {
            &&& r is Ok
            &&& final(panel).id == old(panel).id
            &&& final(panel).name@ == match u.name {
                Some(n) => n@,
                None => old(panel).name@,
            }
            &&& final(panel).board_instances@ == if old(panel).board_instances@.len() == 0 {
                seq![edited_first_instance(old(panel).board_instances@, u, board)]
            } else {
                old(panel).board_instances@.update(0, edited_first_instance(old(panel).board_instances@, u, board))
            }
            &&& final(panel).object_revision == old(panel).object_revision + 1
        },
{
    if u.name.is_none() && u.board.is_none() && u.x_nm.is_none() && u.y_nm.is_none() && u.rotation_deg.is_none() {
        return Err(UpdateError::NoFields);
    }
    let ghost before = panel.board_instances@;
    let first = if panel.board_instances.len() == 0 {
        PanelBoardInstance { board, x_nm: 0, y_nm: 0, rotation_deg: 0 }
    } else {
        panel.board_instances[0]
    };
    let edited = PanelBoardInstance {
        board: match u.board {
            Some(b) => b,
            None => first.board,
        },
        x_nm: match u.x_nm {
            Some(x) => x,
            None => first.x_nm,
        },
        y_nm: match u.y_nm {
            Some(y) => y,
            None => first.y_nm,
        },
        rotation_deg: match u.rotation_deg {
            Some(d) => d,
            None => first.rotation_deg,
        },
    };
    assert(edited == edited_first_instance(before, u, board));
    if panel.board_instances.len() == 0 {
        panel.board_instances.push(edited);
        assert(panel.board_instances@ =~= seq![edited]);
    } else {
        panel.board_instances.set(0, edited);
    }
    if let Some(n) = u.name {
        panel.name = n;
    }
    panel.object_revision = panel.object_revision + 1;
    Ok(())
}

fn owned(s: &str) -> (r: String)
    ensures
        r@ == s@,
{
    let v = chars_of(s);
    string_from_chars(v.as_slice())
}

fn text_after(lit: &[char], s: &str) -> (r: String)
    ensures
        r@ == lit@ + s@,
{
    let mut out: Vec<char> = Vec::new();
    push_chars(&mut out, lit);
    let v = chars_of(s);
    push_chars(&mut out, v.as_slice());
    string_from_chars(out.as_slice())
}

/// The name a new manufacturing plan gets when none is given.
pub open spec fn default_plan_name(prefix: Seq<char>) -> Seq<char> {
    seq!['M', 'a', 'n', 'u', 'f', 'a', 'c', 't', 'u', 'r', 'i', 'n', 'g', ' ', 'p', 'l', 'a', 'n', ' '] + prefix
}

/// A new manufacturing plan with the identity `id`: named `name`, or
/// "Manufacturing plan" and the prefix; made for the panel projection when
/// one is given, else for the board `board`; at revision 0.
pub fn new_manufacturing_plan(
    id: u128,
    prefix: &str,
    name: Option<&str>,
    variant: Option<u128>,
    panel_projection: Option<u128>,
    board: u128,
) -> (r: ManufacturingPlanRecord)
    ensures
        r.id == id,
        r.prefix@ == prefix@,
        r.name@ == match name {
            Some(n) => n@,
            None => default_plan_name(prefix@),
        },
        r.variant == variant,
        r.board_or_panel == given_or(panel_projection, board),
        r.object_revision == 0,
{
    let name = match name {
        Some(n) => owned(n),
        None => text_after(
            &['M', 'a', 'n', 'u', 'f', 'a', 'c', 't', 'u', 'r', 'i', 'n', 'g', ' ', 'p', 'l', 'a', 'n', ' '],
            prefix,
        ),
    };
    ManufacturingPlanRecord {
        id,
        name,
        prefix: owned(prefix),
        variant,
        board_or_panel: match panel_projection {
            Some(p) => p,
            None => board,
        },
        object_revision: 0,
    }
}

/// The name a new panel projection gets when none is given.
pub open spec fn default_panel_name(key: Seq<char>) -> Seq<char> {
    seq!['P', 'a', 'n', 'e', 'l', ' ', 'p', 'r', 'o', 'j', 'e', 'c', 't', 'i', 'o', 'n', ' '] + key
}

/// A new panel projection with the identity `id`: named `name`, or "Panel
/// projection" and the key; with one board instance, of the board given or
/// else of the board `board`, at the given offset and rotation; at revision
/// 0.
pub fn new_panel_projection(
    id: u128,
    key: &str,
    name: Option<&str>,
    instance_board: Option<u128>,
    board: u128,
    x_nm: i64,
    y_nm: i64,
    rotation_deg: i32,
) -> (r: PanelProjectionRecord)
    ensures
        r.id == id,
        r.name@ == match name {
            Some(n) => n@,
            None => default_panel_name(key@),
        },
        r.board_instances@ == seq![
            PanelBoardInstance { board: given_or(instance_board, board), x_nm, y_nm, rotation_deg },
        ],
        r.object_revision == 0,
{
    let name = match name {
        Some(n) => owned(n),
        None => text_after(&['P', 'a', 'n', 'e', 'l', ' ', 'p', 'r', 'o', 'j', 'e', 'c', 't', 'i', 'o', 'n', ' '], key),
    };
    let instance = PanelBoardInstance {
        board: match instance_board {
            Some(b) => b,
            None => board,
        },
        x_nm,
        y_nm,
        rotation_deg,
    };
    let mut board_instances: Vec<PanelBoardInstance> = Vec::new();
    board_instances.push(instance);
    assert(board_instances@ =~= seq![instance]);
    PanelProjectionRecord { id, name, board_instances, object_revision: 0 }
}

} // verus!
