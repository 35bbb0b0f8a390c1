//! The rules that pool-library inputs must meet: names, paths, dimensions,
//! lifecycles and pin electrical types.
use vstd::prelude::*;
use crate::forward_annotation::{text_is, text_of, texts_view};
use crate::text::{chars_of, chars_eq, split_chars, split_on, string_from_chars, trim, trim_chars};

verus! {

pub open spec fn lit_units() -> Seq<char> {
    seq!['u', 'n', 'i', 't', 's']
}

pub open spec fn lit_symbols() -> Seq<char> {
    seq!['s', 'y', 'm', 'b', 'o', 'l', 's']
}

pub open spec fn lit_entities() -> Seq<char> {
    seq!['e', 'n', 't', 'i', 't', 'i', 'e', 's']
}

pub open spec fn lit_parts() -> Seq<char> {
    seq!['p', 'a', 'r', 't', 's']
}

pub open spec fn lit_packages() -> Seq<char> {
    seq!['p', 'a', 'c', 'k', 'a', 'g', 'e', 's']
}

pub open spec fn lit_footprints() -> Seq<char> {
    seq!['f', 'o', 'o', 't', 'p', 'r', 'i', 'n', 't', 's']
}

pub open spec fn lit_padstacks() -> Seq<char> {
    seq!['p', 'a', 'd', 's', 't', 'a', 'c', 'k', 's']
}

pub open spec fn lit_pin_pad_maps() -> Seq<char> {
    seq!['p', 'i', 'n', '_', 'p', 'a', 'd', '_', 'm', 'a', 'p', 's']
}

pub open spec fn lit_Active() -> Seq<char> {
    seq!['A', 'c', 't', 'i', 'v', 'e']
}

pub open spec fn lit_Nrnd() -> Seq<char> {
    seq!['N', 'r', 'n', 'd']
}

pub open spec fn lit_Eol() -> Seq<char> {
    seq!['E', 'o', 'l']
}

pub open spec fn lit_Obsolete() -> Seq<char> {
    seq!['O', 'b', 's', 'o', 'l', 'e', 't', 'e']
}

pub open spec fn lit_Unknown() -> Seq<char> {
    seq!['U', 'n', 'k', 'n', 'o', 'w', 'n']
}

pub open spec fn lit_Input() -> Seq<char> {
    seq!['I', 'n', 'p', 'u', 't']
}

pub open spec fn lit_Output() -> Seq<char> {
    seq!['O', 'u', 't', 'p', 'u', 't']
}

pub open spec fn lit_Bidirectional() -> Seq<char> {
    seq!['B', 'i', 'd', 'i', 'r', 'e', 'c', 't', 'i', 'o', 'n', 'a', 'l']
}

pub open spec fn lit_Passive() -> Seq<char> {
    seq!['P', 'a', 's', 's', 'i', 'v', 'e']
}

pub open spec fn lit_PowerIn() -> Seq<char> {
    seq!['P', 'o', 'w', 'e', 'r', 'I', 'n']
}

pub open spec fn lit_PowerOut() -> Seq<char> {
    seq!['P', 'o', 'w', 'e', 'r', 'O', 'u', 't']
}

pub open spec fn lit_OpenCollector() -> Seq<char> {
    seq!['O', 'p', 'e', 'n', 'C', 'o', 'l', 'l', 'e', 'c', 't', 'o', 'r']
}

pub open spec fn lit_OpenEmitter() -> Seq<char> {
    seq!['O', 'p', 'e', 'n', 'E', 'm', 'i', 't', 't', 'e', 'r']
}

pub open spec fn lit_TriState() -> Seq<char> {
    seq!['T', 'r', 'i', 'S', 't', 'a', 't', 'e']
}

pub open spec fn lit_NoConnect() -> Seq<char> {
    seq!['N', 'o', 'C', 'o', 'n', 'n', 'e', 'c', 't']
}


/// Whether `s` holds no character once trimmed.
pub open spec fn blank(s: Seq<char>) -> bool {
    trim(s).len() == 0
}

/// A path is absolute when it starts at the root (`/`).
pub open spec fn is_absolute_path(p: Seq<char>) -> bool {
    p.len() > 0 && p[0] == '/'
}

/// A path names a parent directory when one of its `/`-separated
/// components is `..`.
pub open spec fn has_parent_component(p: Seq<char>) -> bool {
    exists|i: int| 0 <= i < split_on(p, '/').len() && #[trigger] split_on(p, '/')[i] == seq!['.', '.']
}

/// A relative path that starts with the current directory `.`.
pub open spec fn starts_with_current_dir(p: Seq<char>) -> bool {
    !is_absolute_path(p) && split_on(p, '/')[0] == seq!['.']
}

/// Why a model name list is refused.
#[derive(Debug, PartialEq, Eq)]
pub enum ModelNameError {
    /// A name is empty once trimmed.
    Empty,
    /// A trimmed name occurs twice.
    Duplicate { name: String },
}

/// The names trimmed, in order; the first that is empty, or that repeats an
/// earlier one, is refused (`None` for empty, the name for a repeat).
pub open spec fn normalized_names(names: Seq<String>) -> Result<Seq<Seq<char>>, Option<Seq<char>>>
    decreases names.len(),
{
    if names.len() == 0 {
        Ok(Seq::empty())
    } else {
        match normalized_names(names.drop_last()) {
            Err(e) => Err(e),
            Ok(prev) => {
                let t = trim(names.last()@);
                if t.len() == 0 {
                    Err(None)
                } else if prev.contains(t) {
                    Err(Some(t))
                } else {
                    Ok(prev.push(t))
                }
            },
        }
    }
}

proof fn lemma_normalized_error_persists(names: Seq<String>, i: int)
    requires
        0 <= i <= names.len(),
        normalized_names(names.take(i)) is Err,
    ensures
        normalized_names(names) == normalized_names(names.take(i)),
    decreases names.len() - i,
{
    if i < names.len() {
        assert(names.take(i + 1).drop_last() =~= names.take(i));
        lemma_normalized_error_persists(names, i + 1);
    } else {
        assert(names.take(i) =~= names);
    }
}

/// Behavioural model names, each trimmed; an empty or repeated name is
/// refused.
pub fn normalize_model_names(model_names: Vec<String>) -> (r: Result<Vec<String>, ModelNameError>)
    ensures
        match normalized_names(model_names@) {
            Ok(v) => r is Ok && texts_view(r.unwrap()@) == v,
            Err(None) => r == Err::<Vec<String>, ModelNameError>(ModelNameError::Empty),
            Err(Some(t)) => r matches Err(ModelNameError::Duplicate { name }) && name@ == t,
        },
{
    let mut out: Vec<String> = Vec::new();
    let mut i: usize = 0;
    assert(model_names@.take(0) =~= Seq::<String>::empty());
    assert(texts_view(out@) =~= Seq::<Seq<char>>::empty());
    while i < model_names.len()
        invariant
            i <= model_names.len(),
            normalized_names(model_names@.take(i as int)) == Ok::<
                Seq<Seq<char>>,
                Option<Seq<char>>,
            >(texts_view(out@)),
        decreases model_names.len() - i,
    {
        proof {
            let next = model_names@.take(i + 1);
            assert(next.drop_last() =~= model_names@.take(i as int));
            assert(next.last() == model_names@[i as int]);
        }
        let t = trim_chars(chars_of(model_names[i].as_str()).as_slice());
        if t.len() == 0 {
            proof {
                lemma_normalized_error_persists(model_names@, i + 1);
            }
            return Err(ModelNameError::Empty);
        }
        let mut j: usize = 0;
        while j < out.len()
            invariant
                j <= out.len(),
                i < model_names.len(),
                t@ == trim(model_names@[i as int]@),
                t@.len() > 0,
                model_names@.take(i + 1).drop_last() == model_names@.take(i as int),
                model_names@.take(i + 1).last() == model_names@[i as int],
                normalized_names(model_names@.take(i as int)) == Ok::<
                    Seq<Seq<char>>,
                    Option<Seq<char>>,
                >(texts_view(out@)),
                forall|k: int| 0 <= k < j ==> texts_view(out@)[k] != t@,
            decreases out.len() - j,
        {
            if text_is(&out[j], t.as_slice()) {
                proof {
                    let prev = texts_view(out@);
                    assert(prev[j as int] == t@);
                    assert(prev.contains(t@));
                    assert(trim(model_names@.take(i + 1).last()@) == t@);
                    assert(normalized_names(model_names@.take(i + 1)) == Err::<
                        Seq<Seq<char>>,
                        Option<Seq<char>>,
                    >(Some(t@)));
                    lemma_normalized_error_persists(model_names@, i + 1);
                }
                return Err(ModelNameError::Duplicate { name: string_from_chars(t.as_slice()) });
            }
            j = j + 1;
        }
        let ghost before = texts_view(out@);
        out.push(string_from_chars(t.as_slice()));
        proof {
            assert(!before.contains(t@));
            assert(texts_view(out@) =~= before.push(t@));
        }
        i = i + 1;
    }
    assert(model_names@.take(model_names.len() as int) =~= model_names@);
    Ok(out)
}

/// The trimmed text, or nothing when it is empty once trimmed.
pub fn normalize_optional_string(value: Option<String>) -> (r: Option<String>)
    ensures
        match value {
            None => r is None,
            Some(v) => if trim(v@).len() == 0 {
                r is None
            } else {
                r is Some && r.unwrap()@ == trim(v@)
            },
        },
{
    match value {
        None => None,
        Some(v) => {
            let t = trim_chars(chars_of(v.as_str()).as_slice());
            if t.len() == 0 {
                None
            } else {
                Some(string_from_chars(t.as_slice()))
            }
        },
    }
}

fn is_absolute(p: &[char]) -> (b: bool)
    ensures
        b == is_absolute_path(p@),
{
    p.len() > 0 && p[0] == '/'
}

pub fn names_parent(p: &[char]) -> (b: bool)
    ensures
        b == has_parent_component(p@),
{
    let parts = split_chars(p, '/');
    let mut i: usize = 0;
    while i < parts.len()
        invariant
            i <= parts.len(),
            parts@.len() == split_on(p@, '/').len(),
            forall|k: int| 0 <= k < parts@.len() ==> #[trigger] parts@[k]@ == split_on(p@, '/')[k],
            forall|k: int| 0 <= k < i ==> split_on(p@, '/')[k] != seq!['.', '.'],
        decreases parts.len() - i,
    {
        if chars_eq(parts[i].as_slice(), &['.', '.']) {
            assert(parts@[i as int]@ == split_on(p@, '/')[i as int]);
            return true;
        }
        i = i + 1;
    }
    false
}

/// Why a pool path is refused.
#[derive(Debug, Clone, Copy, PartialEq, Eq, Structural)]
pub enum PoolPathError {
    /// The path is empty once trimmed, or absolute.
    EmptyOrAbsolute,
    /// The path has a `..` component.
    ParentDirectory,
}

/// What is wrong with a project-local pool path, if anything: it must be
/// a non-empty relative path without parent-directory components.
pub open spec fn pool_path_error(pool_path: Seq<char>) -> Option<PoolPathError> {
    if blank(pool_path) || is_absolute_path(pool_path) {
        Some(PoolPathError::EmptyOrAbsolute)
    } else if has_parent_component(pool_path) {
        Some(PoolPathError::ParentDirectory)
    } else {
        None
    }
}

/// A project-local pool path must be a non-empty relative path without
/// parent-directory components.
pub fn validate_project_local_pool_path(pool_path: &str) -> (r: Result<(), PoolPathError>)
    ensures
        r == match pool_path_error(pool_path@) {
            Some(e) => Err::<(), PoolPathError>(e),
            None => Ok(()),
        },
{
    let p = chars_of(pool_path);
    if trim_chars(p.as_slice()).len() == 0 || is_absolute(p.as_slice()) {
        return Err(PoolPathError::EmptyOrAbsolute);
    }
    if names_parent(p.as_slice()) {
        return Err(PoolPathError::ParentDirectory);
    }
    Ok(())
}

/// The kinds of object a pool library holds.
pub open spec fn pool_object_kind(kind: Seq<char>) -> bool {
    ||| kind == lit_units()
    ||| kind == lit_symbols()
    ||| kind == lit_entities()
    ||| kind == lit_parts()
    ||| kind == lit_packages()
    ||| kind == lit_footprints()
    ||| kind == lit_padstacks()
    ||| kind == lit_pin_pad_maps()
}

/// Whether `kind` is a kind of object a pool library holds.
pub fn validate_pool_library_object_kind(kind: &str) -> (r: Result<(), ()>)
    ensures
        r is Ok <==> pool_object_kind(kind@),
{
    let k = string_from_chars(chars_of(kind).as_slice());
    if text_is(&k, &['u', 'n', 'i', 't', 's']) || text_is(&k, &['s', 'y', 'm', 'b', 'o', 'l', 's']) || text_is(&k, &['e', 'n', 't', 'i', 't', 'i', 'e', 's']) || text_is(&k, &['p', 'a', 'r', 't', 's'])
        || text_is(&k, &['p', 'a', 'c', 'k', 'a', 'g', 'e', 's']) || text_is(&k, &['f', 'o', 'o', 't', 'p', 'r', 'i', 'n', 't', 's']) || text_is(&k, &['p', 'a', 'd', 's', 't', 'a', 'c', 'k', 's']) || text_is(
        &k,
        &['p', 'i', 'n', '_', 'p', 'a', 'd', '_', 'm', 'a', 'p', 's'],
    ) {
        Ok(())
    } else {
        Err(())
    }
}

/// Why a required dimension is refused.
#[derive(Debug, Clone, Copy, PartialEq, Eq, Structural)]
pub enum DimensionError {
    /// The dimension is zero or negative.
    NotPositive,
    /// The dimension is not given.
    Required,
}

/// A required padstack dimension: it must be given and positive.
pub fn positive_required_dimension(value: Option<i64>) -> (r: Result<i64, DimensionError>)
    ensures
        r == match value {
            Some(v) => if v > 0 {
                Ok::<i64, DimensionError>(v)
            } else {
                Err(DimensionError::NotPositive)
            },
            None => Err(DimensionError::Required),
        },
{
    match value {
        Some(v) => if v > 0 {
            Ok(v)
        } else {
            Err(DimensionError::NotPositive)
        },
        None => Err(DimensionError::Required),
    }
}

/// An optional height must be positive when it is given.
pub fn validate_optional_positive_height(value: Option<i64>) -> (r: Result<(), ()>)
    ensures
        r is Ok <==> match value {
            Some(v) => v > 0,
            None => true,
        },
{
    match value {
        Some(v) => if v <= 0 {
            Err(())
        } else {
            Ok(())
        },
        None => Ok(()),
    }
}

/// The lifecycle states a part can be in.
pub open spec fn part_lifecycle(s: Seq<char>) -> bool {
    ||| s == lit_Active()
    ||| s == lit_Nrnd()
    ||| s == lit_Eol()
    ||| s == lit_Obsolete()
    ||| s == lit_Unknown()
}

/// A part lifecycle must be one of Active, Nrnd, Eol, Obsolete or Unknown;
/// it is handed back as given.
pub fn validate_part_lifecycle(lifecycle: String) -> (r: Result<String, ()>)
    ensures
        part_lifecycle(lifecycle@) ==> r == Ok::<String, ()>(lifecycle),
        !part_lifecycle(lifecycle@) ==> r is Err,
{
    if text_is(&lifecycle, &['A', 'c', 't', 'i', 'v', 'e']) || text_is(&lifecycle, &['N', 'r', 'n', 'd']) || text_is(&lifecycle, &['E', 'o', 'l']) || text_is(
        &lifecycle,
        &['O', 'b', 's', 'o', 'l', 'e', 't', 'e'],
    ) || text_is(&lifecycle, &['U', 'n', 'k', 'n', 'o', 'w', 'n']) {
        Ok(lifecycle)
    } else {
        Err(())
    }
}

/// Why a package model path is refused.
#[derive(Debug, Clone, Copy, PartialEq, Eq, Structural)]
pub enum ModelPathError {
    /// The path is empty once trimmed.
    Empty,
    /// The path is absolute.
    Absolute,
    /// The path has a `.` or `..` component.
    SpecialComponent,
}

/// A package model path, trimmed: it must be non-empty and relative, and
/// every component must be a plain name (no `.` at the start, no `..`).
pub fn validate_model_path(model_path: &str) -> (r: Result<String, ModelPathError>)
    ensures
        ({
            let t = trim(model_path@);
            if t.len() == 0 {
                r == Err::<String, ModelPathError>(ModelPathError::Empty)
            } else if is_absolute_path(t) {
                r == Err::<String, ModelPathError>(ModelPathError::Absolute)
            } else if starts_with_current_dir(t) || has_parent_component(t) {
                r == Err::<String, ModelPathError>(ModelPathError::SpecialComponent)
            } else {
                r is Ok && r.unwrap()@ == t
            }
        }),
{
    let t = trim_chars(chars_of(model_path).as_slice());
    if t.len() == 0 {
        return Err(ModelPathError::Empty);
    }
    if is_absolute(t.as_slice()) {
        return Err(ModelPathError::Absolute);
    }
    let parts = split_chars(t.as_slice(), '/');
    proof {
        assert(split_on(t@, '/').len() > 0) by {
            crate::text::lemma_first_index_bound(t@, '/');
        }
    }
    assert(parts@[0]@ == split_on(t@, '/')[0]);
    let dot_name = ['.'];
    assert(dot_name@ == seq!['.']);
    let dot = chars_eq(parts[0].as_slice(), &dot_name);
    assert(dot == (split_on(t@, '/')[0] == seq!['.']));
    assert(dot == starts_with_current_dir(t@));
    if dot || names_parent(t.as_slice()) {
        return Err(ModelPathError::SpecialComponent);
    }
    Ok(string_from_chars(t.as_slice()))
}

/// The electrical types a pin can have.
pub open spec fn pin_electrical_type(s: Seq<char>) -> bool {
    ||| s == lit_Input()
    ||| s == lit_Output()
    ||| s == lit_Bidirectional()
    ||| s == lit_Passive()
    ||| s == lit_PowerIn()
    ||| s == lit_PowerOut()
    ||| s == lit_OpenCollector()
    ||| s == lit_OpenEmitter()
    ||| s == lit_TriState()
    ||| s == lit_NoConnect()
}

/// A pin electrical type must be one of the known types; it is handed back
/// as given.
pub fn validate_pin_electrical_type(direction: String) -> (r: Result<String, PinTypeError>)
    ensures
        pin_electrical_type(direction@) ==> r == Ok::<String, PinTypeError>(direction),
        !pin_electrical_type(direction@) ==> r == Err::<String, PinTypeError>(
            PinTypeError::Unsupported,
        ),
{
    if text_is(&direction, &['I', 'n', 'p', 'u', 't']) || text_is(&direction, &['O', 'u', 't', 'p', 'u', 't']) || text_is(&direction, &['B', 'i', 'd', 'i', 'r', 'e', 'c', 't', 'i', 'o', 'n', 'a', 'l'])
        || text_is(&direction, &['P', 'a', 's', 's', 'i', 'v', 'e']) || text_is(&direction, &['P', 'o', 'w', 'e', 'r', 'I', 'n']) || text_is(&direction, &['P', 'o', 'w', 'e', 'r', 'O', 'u', 't'])
        || text_is(&direction, &['O', 'p', 'e', 'n', 'C', 'o', 'l', 'l', 'e', 'c', 't', 'o', 'r']) || text_is(&direction, &['O', 'p', 'e', 'n', 'E', 'm', 'i', 't', 't', 'e', 'r']) || text_is(
        &direction,
        &['T', 'r', 'i', 'S', 't', 'a', 't', 'e'],
    ) || text_is(&direction, &['N', 'o', 'C', 'o', 'n', 'n', 'e', 'c', 't']) {
        Ok(direction)
    } else {
        Err(PinTypeError::Unsupported)
    }
}

/// Why a pin electrical type is refused.
#[derive(Debug, Clone, Copy, PartialEq, Eq, Structural)]
pub enum PinTypeError {
    /// A direction and an electrical type were both given and differ.
    Conflicting,
    /// The type is not a known electrical type.
    Unsupported,
}

/// A pin's electrical type from a direction and an electrical type, either
/// of which may be given: two different values conflict, one value must be
/// a known type, and none gives `Passive`.
pub fn resolve_pin_electrical_type(direction: Option<String>, electrical_type: Option<String>) -> (r:
    Result<String, PinTypeError>)
    ensures
        ({
            let chosen = match (direction, electrical_type) {
                (Some(d), _) => Some(d),
                (None, e) => e,
            };
            if direction is Some && electrical_type is Some && direction.unwrap()@
                != electrical_type.unwrap()@ {
                r == Err::<String, PinTypeError>(PinTypeError::Conflicting)
            } else {
                match chosen {
                    None => r is Ok && r.unwrap()@ == lit_Passive(),
                    Some(t) => if pin_electrical_type(t@) {
                        r == Ok::<String, PinTypeError>(t)
                    } else {
                        r == Err::<String, PinTypeError>(PinTypeError::Unsupported)
                    },
                }
            }
        }),
{
    match (direction, electrical_type) {
        (Some(d), Some(e)) => {
            if !(d == e) {
                Err(PinTypeError::Conflicting)
            } else {
                validate_pin_electrical_type(d)
            }
        },
        (Some(d), None) => validate_pin_electrical_type(d),
        (None, Some(e)) => validate_pin_electrical_type(e),
        (None, None) => Ok(text_of(&['P', 'a', 's', 's', 'i', 'v', 'e'])),
    }
}

} // verus!
