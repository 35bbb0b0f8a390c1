//! Pin-to-pad maps of pool parts: reading the entries given for a map,
//! finding which gate a pin belongs to, and checking mappings against the
//! gates of the part's entity and the pads of its package or footprint.
use vstd::prelude::*;
use crate::ids::{parse_uuid, uuid_parsed};
use crate::text::{chars_of, split_chars, split_on, string_from_chars};

verus! {

/// A gate of a pool entity and the pins of the unit it places.
pub struct GatePins {
    pub gate: u128,
    pub pins: Vec<u128>,
}

/// One mapping: a pad, and which gate and pin land on it.
#[derive(Debug, Clone, Copy, PartialEq, Eq, Structural)]
pub struct PinPadEntry {
    pub pad: u128,
    pub gate: u128,
    pub pin: u128,
}

/// Why the entries of a pin-to-pad map are refused; `index` counts the
/// entries given from 0.
#[derive(Debug, Clone, Copy, PartialEq, Eq, Structural)]
pub enum PinPadMapError {
    /// The entry is neither `pin:pad` nor `pad:gate:pin`.
    BadEntryFormat { index: usize },
    /// The entry's pin is not a UUID.
    InvalidPin { index: usize },
    /// The entry's pad is not a UUID.
    InvalidPad { index: usize },
    /// The entry's gate is not a UUID.
    InvalidGate { index: usize },
    /// No gate of the entity has the pin.
    PinNotInEntity { pin: u128 },
    /// More than one gate of the entity has the pin.
    AmbiguousPin { pin: u128 },
    /// Two mappings name the same pad.
    DuplicatePad { pad: u128 },
    /// The map has no mappings.
    NoMappings,
    /// The footprint is of another package than the part.
    FootprintPackageMismatch,
    /// Two mappings name the same gate and pin.
    DuplicateGatePin { gate: u128, pin: u128 },
    /// The entity has no such gate.
    NoGate { gate: u128 },
    /// That gate's unit has no such pin.
    NoPinInUnit { pin: u128 },
    /// The package or footprint has no such pad.
    NoPad { pad: u128 },
}

/// Those gates, in order, whose unit has the pin.
pub open spec fn gates_with_pin(gates: Seq<GatePins>, pin: u128) -> Seq<u128>
    decreases gates.len(),
{
    if gates.len() == 0 {
        Seq::empty()
    } else {
        let rest = gates_with_pin(gates.drop_last(), pin);
        if gates.last().pins@.contains(pin) {
            rest.push(gates.last().gate)
        } else {
            rest
        }
    }
}

/// The one gate whose unit has the pin.
pub open spec fn inferred_gate(gates: Seq<GatePins>, pin: u128) -> Result<u128, PinPadMapError> {
    let m = gates_with_pin(gates, pin);
    if m.len() == 1 {
        Ok(m[0])
    } else if m.len() == 0 {
        Err(PinPadMapError::PinNotInEntity { pin })
    } else {
        Err(PinPadMapError::AmbiguousPin { pin })
    }
}

fn has_id(ids: &[u128], id: u128) -> (b: bool)
    ensures
        b == ids@.contains(id),
{
    let mut i: usize = 0;
    while i < ids.len()
        invariant
            i <= ids.len(),
            forall|j: int| 0 <= j < i ==> ids@[j] != id,
        decreases ids.len() - i,
    {
        if ids[i] == id {
            assert(ids@[i as int] == id);
            return true;
        }
        i = i + 1;
    }
    false
}

/// Which gate of the entity has the pin: exactly one must.
pub fn infer_gate_for_pin(gates: &[GatePins], pin: u128) -> (r: Result<u128, PinPadMapError>)
    ensures
        r == inferred_gate(gates@, pin),
{
    let mut found: Vec<u128> = Vec::new();
    let mut i: usize = 0;
    while i < gates.len()
        invariant
            i <= gates.len(),
            found@ == gates_with_pin(gates@.take(i as int), pin),
        decreases gates.len() - i,
    {
        proof {
            let next = gates@.take(i + 1);
            assert(next.drop_last() =~= gates@.take(i as int));
            assert(next.last() == gates@[i as int]);
        }
        if has_id(gates[i].pins.as_slice(), pin) {
            found.push(gates[i].gate);
        }
        i = i + 1;
    }
    assert(gates@.take(gates.len() as int) =~= gates@);
    if found.len() == 1 {
        Ok(found[0])
    } else if found.len() == 0 {
        Err(PinPadMapError::PinNotInEntity { pin })
    } else {
        Err(PinPadMapError::AmbiguousPin { pin })
    }
}

/// The entry `s` (the `index`-th given): `pin:pad`, its gate found from
/// the pin, or `pad:gate:pin`.
pub open spec fn entry_result(s: Seq<char>, index: usize, gates: Seq<GatePins>) -> Result<
    PinPadEntry,
    PinPadMapError,
> {
    let f = split_on(s, ':');
    if f.len() == 2 {
        match uuid_parsed(f[0]) {
            None => Err(PinPadMapError::InvalidPin { index }),
            Some(pin) => match uuid_parsed(f[1]) {
                None => Err(PinPadMapError::InvalidPad { index }),
                Some(pad) => match inferred_gate(gates, pin) {
                    Err(e) => Err(e),
                    Ok(gate) => Ok(PinPadEntry { pad, gate, pin }),
                },
            },
        }
    } else if f.len() == 3 {
        match uuid_parsed(f[0]) {
            None => Err(PinPadMapError::InvalidPad { index }),
            Some(pad) => match uuid_parsed(f[1]) {
                None => Err(PinPadMapError::InvalidGate { index }),
                Some(gate) => match uuid_parsed(f[2]) {
                    None => Err(PinPadMapError::InvalidPin { index }),
                    Some(pin) => Ok(PinPadEntry { pad, gate, pin }),
                },
            },
        }
    } else {
        Err(PinPadMapError::BadEntryFormat { index })
    }
}

fn uuid_of(piece: &Vec<char>) -> (r: Option<u128>)
    ensures
        r == uuid_parsed(piece@),
{
    let t = string_from_chars(piece.as_slice());
    parse_uuid(t.as_str())
}

fn parse_entry(s: &String, index: usize, gates: &[GatePins]) -> (r: Result<PinPadEntry, PinPadMapError>)
    ensures
        r == entry_result(s@, index, gates@),
{
    let c = chars_of(s.as_str());
    let f = split_chars(c.as_slice(), ':');
    if f.len() == 2 {
        let pin = match uuid_of(&f[0]) {
            None => {
                return Err(PinPadMapError::InvalidPin { index });
            },
            Some(p) => p,
        };
        let pad = match uuid_of(&f[1]) {
            None => {
                return Err(PinPadMapError::InvalidPad { index });
            },
            Some(p) => p,
        };
        let gate = match infer_gate_for_pin(gates, pin) {
            Err(e) => {
                return Err(e);
            },
            Ok(g) => g,
        };
        Ok(PinPadEntry { pad, gate, pin })
    } else if f.len() == 3 {
        let pad = match uuid_of(&f[0]) {
            None => {
                return Err(PinPadMapError::InvalidPad { index });
            },
            Some(p) => p,
        };
        let gate = match uuid_of(&f[1]) {
            None => {
                return Err(PinPadMapError::InvalidGate { index });
            },
            Some(g) => g,
        };
        let pin = match uuid_of(&f[2]) {
            None => {
                return Err(PinPadMapError::InvalidPin { index });
            },
            Some(p) => p,
        };
        Ok(PinPadEntry { pad, gate, pin })
    } else {
        Err(PinPadMapError::BadEntryFormat { index })
    }
}

/// The pads of the mappings, in order.
pub open spec fn pads_of(es: Seq<PinPadEntry>) -> Seq<u128> {
    Seq::new(es.len(), |i: int| es[i].pad)
}

/// Each mapping's gate and pin, in order.
pub open spec fn gate_pins_of_entries(es: Seq<PinPadEntry>) -> Seq<(u128, u128)> {
    Seq::new(es.len(), |i: int| (es[i].gate, es[i].pin))
}

fn has_pad(es: &[PinPadEntry], pad: u128) -> (b: bool)
    ensures
        b == pads_of(es@).contains(pad),
{
    let mut j: usize = 0;
    while j < es.len()
        invariant
            j <= es.len(),
            forall|k: int| 0 <= k < j ==> es@[k].pad != pad,
        decreases es.len() - j,
    {
        if es[j].pad == pad {
            assert(pads_of(es@)[j as int] == pad);
            return true;
        }
        j = j + 1;
    }
    assert forall|k: int| 0 <= k < pads_of(es@).len() implies pads_of(es@)[k] != pad by {
        assert(pads_of(es@)[k] == es@[k].pad);
    }
    false
}

fn has_gate_pin(es: &[PinPadEntry], gate: u128, pin: u128) -> (b: bool)
    ensures
        b == gate_pins_of_entries(es@).contains((gate, pin)),
{
    let mut j: usize = 0;
    while j < es.len()
        invariant
            j <= es.len(),
            forall|k: int| 0 <= k < j ==> (es@[k].gate, es@[k].pin) != (gate, pin),
        decreases es.len() - j,
    {
        if es[j].gate == gate && es[j].pin == pin {
            assert(gate_pins_of_entries(es@)[j as int] == (gate, pin));
            return true;
        }
        j = j + 1;
    }
    assert forall|k: int| 0 <= k < gate_pins_of_entries(es@).len() implies gate_pins_of_entries(es@)[k] != (
        gate,
        pin,
    ) by {
        assert(gate_pins_of_entries(es@)[k] == (es@[k].gate, es@[k].pin));
    }
    false
}

/// The mappings the entries give, in order, or the first problem: an entry
/// that does not read, or one whose pad an earlier entry names.
pub open spec fn mapping_entries(entries: Seq<String>, gates: Seq<GatePins>) -> Result<
    Seq<PinPadEntry>,
    PinPadMapError,
>
    decreases entries.len(),
{
    if entries.len() == 0 {
        Ok(Seq::empty())
    } else {
        match mapping_entries(entries.drop_last(), gates) {
            Err(e) => Err(e),
            Ok(prev) => match entry_result(entries.last()@, (entries.len() - 1) as usize, gates) {
                Err(e) => Err(e),
                Ok(e) => if pads_of(prev).contains(e.pad) {
                    Err(PinPadMapError::DuplicatePad { pad: e.pad })
                } else {
                    Ok(prev.push(e))
                },
            },
        }
    }
}

proof fn lemma_entries_error_persists(entries: Seq<String>, gates: Seq<GatePins>, i: int)
    requires
        0 <= i <= entries.len(),
        mapping_entries(entries.take(i), gates) is Err,
    ensures
        mapping_entries(entries, gates) == mapping_entries(entries.take(i), gates),
    decreases entries.len() - i,
{
    if i < entries.len() {
        assert(entries.take(i + 1).drop_last() =~= entries.take(i));
        lemma_entries_error_persists(entries, gates, i + 1);
    } else {
        assert(entries.take(i) =~= entries);
    }
}

/// The mappings of a pin-to-pad map from the entries given (`pin:pad`,
/// its gate found from the pin, or `pad:gate:pin`), in order, or the first
/// problem with them.
pub fn parse_pin_pad_map_entries(entries: &[String], gates: &[GatePins]) -> (r: Result<
    Vec<PinPadEntry>,
    PinPadMapError,
>)
    ensures
        match mapping_entries(entries@, gates@) {
            Ok(es) => r is Ok && r.unwrap()@ == es,
            Err(e) => r == Err::<Vec<PinPadEntry>, PinPadMapError>(e),
        },
{
    let mut out: Vec<PinPadEntry> = Vec::new();
    let mut i: usize = 0;
    assert(entries@.take(0) =~= Seq::<String>::empty());
    while i < entries.len()
        invariant
            i <= entries.len(),
            mapping_entries(entries@.take(i as int), gates@) == Ok::<Seq<PinPadEntry>, PinPadMapError>(out@),
        decreases entries.len() - i,
    {
        proof {
            let next = entries@.take(i + 1);
            assert(next.drop_last() =~= entries@.take(i as int));
            assert(next.last() == entries@[i as int]);
            assert(next.len() - 1 == i);
        }
        let e = match parse_entry(&entries[i], i, gates) {
            Err(err) => {
                proof {
                    lemma_entries_error_persists(entries@, gates@, i + 1);
                }
                return Err(err);
            },
            Ok(e) => e,
        };
        if has_pad(out.as_slice(), e.pad) {
            proof {
                lemma_entries_error_persists(entries@, gates@, i + 1);
            }
            return Err(PinPadMapError::DuplicatePad { pad: e.pad });
        }
        out.push(e);
        i = i + 1;
    }
    assert(entries@.take(entries.len() as int) =~= entries@);
    Ok(out)
}

/// The pins of the unit of the first gate with the id `gate`.
pub open spec fn gate_pins(gates: Seq<GatePins>, gate: u128) -> Option<Seq<u128>>
    decreases gates.len(),
{
    if gates.len() == 0 {
        None
    } else if gates[0].gate == gate {
        Some(gates[0].pins@)
    } else {
        gate_pins(gates.drop_first(), gate)
    }
}

fn find_gate(gates: &[GatePins], gate: u128) -> (r: Option<usize>)
    ensures
        match r {
            None => gate_pins(gates@, gate) is None,
            Some(k) => k < gates@.len() && gate_pins(gates@, gate) == Some(gates@[k as int].pins@),
        },
{
    let mut k: usize = 0;
    assert(gates@.skip(0) =~= gates@);
    while k < gates.len()
        invariant
            k <= gates.len(),
            gate_pins(gates@, gate) == gate_pins(gates@.skip(k as int), gate),
        decreases gates.len() - k,
    {
        proof {
            let u = gates@.skip(k as int);
            assert(u[0] == gates@[k as int]);
            assert(u.drop_first() =~= gates@.skip(k + 1));
        }
        if gates[k].gate == gate {
            return Some(k);
        }
        k = k + 1;
    }
    assert(gates@.skip(k as int) =~= Seq::<GatePins>::empty());
    None
}

/// The first problem with the mappings of a pin-to-pad map, each checked
/// in turn: a pad named before, a gate and pin named before, a gate the
/// entity lacks, a pin its unit lacks, a pad the target lacks.
pub open spec fn mapping_problem(es: Seq<PinPadEntry>, gates: Seq<GatePins>, pads: Seq<u128>) -> Option<
    PinPadMapError,
>
    decreases es.len(),
{
    if es.len() == 0 {
        None
    } else {
        match mapping_problem(es.drop_last(), gates, pads) {
            Some(p) => Some(p),
            None => {
                let prev = es.drop_last();
                let e = es.last();
                if pads_of(prev).contains(e.pad) {
                    Some(PinPadMapError::DuplicatePad { pad: e.pad })
                } else if gate_pins_of_entries(prev).contains((e.gate, e.pin)) {
                    Some(PinPadMapError::DuplicateGatePin { gate: e.gate, pin: e.pin })
                } else {
                    match gate_pins(gates, e.gate) {
                        None => Some(PinPadMapError::NoGate { gate: e.gate }),
                        Some(ps) => if !ps.contains(e.pin) {
                            Some(PinPadMapError::NoPinInUnit { pin: e.pin })
                        } else if !pads.contains(e.pad) {
                            Some(PinPadMapError::NoPad { pad: e.pad })
                        } else {
                            None
                        },
                    }
                }
            },
        }
    }
}

/// The first problem with a pin-to-pad map: no mappings, a footprint of
/// another package than the part's, or a problem with a mapping.
pub open spec fn pin_pad_map_problem(
    es: Seq<PinPadEntry>,
    gates: Seq<GatePins>,
    pads: Seq<u128>,
    footprint_package: Option<u128>,
    part_package: u128,
) -> Option<PinPadMapError> {
    if es.len() == 0 {
        Some(PinPadMapError::NoMappings)
    } else if footprint_package is Some && footprint_package.unwrap() != part_package {
        Some(PinPadMapError::FootprintPackageMismatch)
    } else {
        mapping_problem(es, gates, pads)
    }
}

proof fn lemma_problem_persists(es: Seq<PinPadEntry>, gates: Seq<GatePins>, pads: Seq<u128>, i: int)
    requires
        0 <= i <= es.len(),
        mapping_problem(es.take(i), gates, pads) is Some,
    ensures
        mapping_problem(es, gates, pads) == mapping_problem(es.take(i), gates, pads),
    decreases es.len() - i,
{
    if i < es.len() {
        assert(es.take(i + 1).drop_last() =~= es.take(i));
        lemma_problem_persists(es, gates, pads, i + 1);
    } else {
        assert(es.take(i) =~= es);
    }
}

fn slice_prefix(es: &[PinPadEntry], n: usize) -> (r: Vec<PinPadEntry>)
    requires
        n <= es.len(),
    ensures
        r@ == es@.take(n as int),
{
    let mut r: Vec<PinPadEntry> = Vec::new();
    let mut i: usize = 0;
    while i < n
        invariant
            i <= n <= es.len(),
            r@ == es@.take(i as int),
        decreases n - i,
    {
        r.push(es[i]);
        assert(es@.take(i + 1) =~= es@.take(i as int).push(es@[i as int]));
        i = i + 1;
    }
    r
}

fn first_problem(es: &[PinPadEntry], gates: &[GatePins], pads: &[u128]) -> (r: Option<PinPadMapError>)
    ensures
        r == mapping_problem(es@, gates@, pads@),
{
    let mut i: usize = 0;
    assert(es@.take(0) =~= Seq::<PinPadEntry>::empty());
    while i < es.len()
        invariant
            i <= es.len(),
            mapping_problem(es@.take(i as int), gates@, pads@) is None,
        decreases es.len() - i,
    {
        let ghost prefix = es@.take(i + 1);
        proof {
            assert(prefix.drop_last() =~= es@.take(i as int));
            assert(prefix.last() == es@[i as int]);
        }
        let e = es[i];
        let before = slice_prefix(es, i);
        if has_pad(before.as_slice(), e.pad) {
            proof {
                lemma_problem_persists(es@, gates@, pads@, i + 1);
            }
            return Some(PinPadMapError::DuplicatePad { pad: e.pad });
        }
        if has_gate_pin(before.as_slice(), e.gate, e.pin) {
            proof {
                lemma_problem_persists(es@, gates@, pads@, i + 1);
            }
            return Some(PinPadMapError::DuplicateGatePin { gate: e.gate, pin: e.pin });
        }
        let g = match find_gate(gates, e.gate) {
            None => {
                proof {
                    lemma_problem_persists(es@, gates@, pads@, i + 1);
                }
                return Some(PinPadMapError::NoGate { gate: e.gate });
            },
            Some(g) => g,
        };
        if !has_id(gates[g].pins.as_slice(), e.pin) {
            proof {
                lemma_problem_persists(es@, gates@, pads@, i + 1);
            }
            return Some(PinPadMapError::NoPinInUnit { pin: e.pin });
        }
        if !has_id(pads, e.pad) {
            proof {
                lemma_problem_persists(es@, gates@, pads@, i + 1);
            }
            return Some(PinPadMapError::NoPad { pad: e.pad });
        }
        i = i + 1;
    }
    assert(es@.take(es.len() as int) =~= es@);
    None
}

/// Checks a pin-to-pad map: it has mappings, its footprint (if any) is of
/// the part's package, and each mapping names a new pad and a new gate and
/// pin, a gate of the entity, a pin of that gate's unit and a pad of the
/// target (`pads`: those of the footprint, or of the package).
pub fn validate_pin_pad_map(
    mappings: &[PinPadEntry],
    gates: &[GatePins],
    pads: &[u128],
    footprint_package: Option<u128>,
    part_package: u128,
) -> (r: Result<(), PinPadMapError>)
    ensures
        r == match pin_pad_map_problem(mappings@, gates@, pads@, footprint_package, part_package) {
            Some(e) => Err::<(), PinPadMapError>(e),
            None => Ok(()),
        },
{
    if mappings.len() == 0 {
        return Err(PinPadMapError::NoMappings);
    }
    if let Some(p) = footprint_package {
        if p != part_package {
            return Err(PinPadMapError::FootprintPackageMismatch);
        }
    }
    match first_problem(mappings, gates, pads) {
        Some(e) => Err(e),
        None => Ok(()),
    }
}

/// Why the pad map of a part is refused; `index` counts the entries given
/// from 0.
#[derive(Debug, Clone, Copy, PartialEq, Eq, Structural)]
pub enum PadMapError {
    /// The entry has no gate field.
    MissingGate { index: usize },
    /// The entry has no pin field.
    MissingPin { index: usize },
    /// The entry has more than three fields.
    TooManyFields { index: usize },
    /// The entry's pad is not a UUID.
    InvalidPad { index: usize },
    /// The entry's gate is not a UUID.
    InvalidGate { index: usize },
    /// The entry's pin is not a UUID.
    InvalidPin { index: usize },
    /// The edit has no entries.
    NoEntries,
    /// Two entries name the same pad.
    DuplicatePad { pad: u128 },
    /// The part's package has no such pad.
    NoPad { pad: u128 },
    /// The part's entity has no such gate.
    NoGate { gate: u128 },
    /// That gate's unit has no such pin.
    NoPinInUnit { pin: u128 },
}

/// A pad-map entry `pad:gate:pin` (the `index`-th given).
pub open spec fn pad_map_entry_result(s: Seq<char>, index: usize) -> Result<PinPadEntry, PadMapError> {
    let f = split_on(s, ':');
    if f.len() == 1 {
        Err(PadMapError::MissingGate { index })
    } else if f.len() == 2 {
        Err(PadMapError::MissingPin { index })
    } else if f.len() > 3 {
        Err(PadMapError::TooManyFields { index })
    } else {
        match uuid_parsed(f[0]) {
            None => Err(PadMapError::InvalidPad { index }),
            Some(pad) => match uuid_parsed(f[1]) {
                None => Err(PadMapError::InvalidGate { index }),
                Some(gate) => match uuid_parsed(f[2]) {
                    None => Err(PadMapError::InvalidPin { index }),
                    Some(pin) => Ok(PinPadEntry { pad, gate, pin }),
                },
            },
        }
    }
}

/// The pad-map entries given, in order, or the first that does not read.
pub open spec fn pad_map_entries(entries: Seq<String>) -> Result<Seq<PinPadEntry>, PadMapError>
    decreases entries.len(),
{
    if entries.len() == 0 {
        Ok(Seq::empty())
    } else {
        match pad_map_entries(entries.drop_last()) {
            Err(e) => Err(e),
            Ok(prev) => match pad_map_entry_result(entries.last()@, (entries.len() - 1) as usize) {
                Err(e) => Err(e),
                Ok(e) => Ok(prev.push(e)),
            },
        }
    }
}

proof fn lemma_pad_map_error_persists(entries: Seq<String>, i: int)
    requires
        0 <= i <= entries.len(),
        pad_map_entries(entries.take(i)) is Err,
    ensures
        pad_map_entries(entries) == pad_map_entries(entries.take(i)),
    decreases entries.len() - i,
{
    if i < entries.len() {
        assert(entries.take(i + 1).drop_last() =~= entries.take(i));
        lemma_pad_map_error_persists(entries, i + 1);
    } else {
        assert(entries.take(i) =~= entries);
    }
}

fn parse_pad_map_entry(s: &String, index: usize) -> (r: Result<PinPadEntry, PadMapError>)
    ensures
        r == pad_map_entry_result(s@, index),
{
    let c = chars_of(s.as_str());
    let f = split_chars(c.as_slice(), ':');
    if f.len() == 1 {
        return Err(PadMapError::MissingGate { index });
    }
    if f.len() == 2 {
        return Err(PadMapError::MissingPin { index });
    }
    if f.len() > 3 {
        return Err(PadMapError::TooManyFields { index });
    }
    let pad = match uuid_of(&f[0]) {
        None => {
            return Err(PadMapError::InvalidPad { index });
        },
        Some(p) => p,
    };
    let gate = match uuid_of(&f[1]) {
        None => {
            return Err(PadMapError::InvalidGate { index });
        },
        Some(g) => g,
    };
    let pin = match uuid_of(&f[2]) {
        None => {
            return Err(PadMapError::InvalidPin { index });
        },
        Some(p) => p,
    };
    Ok(PinPadEntry { pad, gate, pin })
}

/// The pad-map entries `pad:gate:pin` given, in order, or the first that
/// does not read.
pub fn parse_pad_map_entries(entries: &[String]) -> (r: Result<Vec<PinPadEntry>, PadMapError>)
    ensures
        match pad_map_entries(entries@) {
            Ok(es) => r is Ok && r.unwrap()@ == es,
            Err(e) => r == Err::<Vec<PinPadEntry>, PadMapError>(e),
        },
{
    let mut out: Vec<PinPadEntry> = Vec::new();
    let mut i: usize = 0;
    assert(entries@.take(0) =~= Seq::<String>::empty());
    while i < entries.len()
        invariant
            i <= entries.len(),
            pad_map_entries(entries@.take(i as int)) == Ok::<Seq<PinPadEntry>, PadMapError>(out@),
        decreases entries.len() - i,
    {
        proof {
            let next = entries@.take(i + 1);
            assert(next.drop_last() =~= entries@.take(i as int));
            assert(next.last() == entries@[i as int]);
            assert(next.len() - 1 == i);
        }
        match parse_pad_map_entry(&entries[i], i) {
            Err(err) => {
                proof {
                    lemma_pad_map_error_persists(entries@, i + 1);
                }
                return Err(err);
            },
            Ok(e) => {
                out.push(e);
            },
        }
        i = i + 1;
    }
    assert(entries@.take(entries.len() as int) =~= entries@);
    Ok(out)
}

/// The first problem with the entries of a part's pad map, each checked in
/// turn: a pad named before, a pad the package lacks, a gate the entity
/// lacks, a pin that gate's unit lacks.
pub open spec fn pad_map_entry_problem(es: Seq<PinPadEntry>, gates: Seq<GatePins>, package_pads: Seq<u128>) -> Option<
    PadMapError,
>
    decreases es.len(),
{
    if es.len() == 0 {
        None
    } else {
        match pad_map_entry_problem(es.drop_last(), gates, package_pads) {
            Some(p) => Some(p),
            None => {
                let e = es.last();
                if pads_of(es.drop_last()).contains(e.pad) {
                    Some(PadMapError::DuplicatePad { pad: e.pad })
                } else if !package_pads.contains(e.pad) {
                    Some(PadMapError::NoPad { pad: e.pad })
                } else {
                    match gate_pins(gates, e.gate) {
                        None => Some(PadMapError::NoGate { gate: e.gate }),
                        Some(ps) => if !ps.contains(e.pin) {
                            Some(PadMapError::NoPinInUnit { pin: e.pin })
                        } else {
                            None
                        },
                    }
                }
            },
        }
    }
}

proof fn lemma_pad_map_problem_persists(es: Seq<PinPadEntry>, gates: Seq<GatePins>, pads: Seq<u128>, i: int)
    requires
        0 <= i <= es.len(),
        pad_map_entry_problem(es.take(i), gates, pads) is Some,
    ensures
        pad_map_entry_problem(es, gates, pads) == pad_map_entry_problem(es.take(i), gates, pads),
    decreases es.len() - i,
{
    if i < es.len() {
        assert(es.take(i + 1).drop_last() =~= es.take(i));
        lemma_pad_map_problem_persists(es, gates, pads, i + 1);
    } else {
        assert(es.take(i) =~= es);
    }
}

/// Checks the entries of a part's pad map: there is one at least, and each
/// names a new pad, a pad of the part's package, a gate of its entity and
/// a pin of that gate's unit.
pub fn validate_part_pad_map(entries: &[PinPadEntry], gates: &[GatePins], package_pads: &[u128]) -> (r: Result<
    (),
    PadMapError,
>)
    ensures
        r == if entries@.len() == 0 {
            Err::<(), PadMapError>(PadMapError::NoEntries)
        } else {
            match pad_map_entry_problem(entries@, gates@, package_pads@) {
                Some(e) => Err::<(), PadMapError>(e),
                None => Ok(()),
            }
        },
{
    if entries.len() == 0 {
        return Err(PadMapError::NoEntries);
    }
    let mut i: usize = 0;
    assert(entries@.take(0) =~= Seq::<PinPadEntry>::empty());
    while i < entries.len()
        invariant
            i <= entries.len(),
            pad_map_entry_problem(entries@.take(i as int), gates@, package_pads@) is None,
        decreases entries.len() - i,
    {
        proof {
            let prefix = entries@.take(i + 1);
            assert(prefix.drop_last() =~= entries@.take(i as int));
            assert(prefix.last() == entries@[i as int]);
        }
        let e = entries[i];
        let before = slice_prefix(entries, i);
        if has_pad(before.as_slice(), e.pad) {
            proof {
                lemma_pad_map_problem_persists(entries@, gates@, package_pads@, i + 1);
            }
            return Err(PadMapError::DuplicatePad { pad: e.pad });
        }
        if !has_id(package_pads, e.pad) {
            proof {
                lemma_pad_map_problem_persists(entries@, gates@, package_pads@, i + 1);
            }
            return Err(PadMapError::NoPad { pad: e.pad });
        }
        let g = match find_gate(gates, e.gate) {
            None => {
                proof {
                    lemma_pad_map_problem_persists(entries@, gates@, package_pads@, i + 1);
                }
                return Err(PadMapError::NoGate { gate: e.gate });
            },
            Some(g) => g,
        };
        if !has_id(gates[g].pins.as_slice(), e.pin) {
            proof {
                lemma_pad_map_problem_persists(entries@, gates@, package_pads@, i + 1);
            }
            return Err(PadMapError::NoPinInUnit { pin: e.pin });
        }
        i = i + 1;
    }
    assert(entries@.take(entries.len() as int) =~= entries@);
    Ok(())
}

} // verus!
