//! Edits of a pool part's fields: how a list field is merged or replaced,
//! how parametric `key=value` entries are read, and which edit requests
//! are refused before anything is written.
use vstd::prelude::*;
use crate::forward_annotation::{copy_text, text_is, texts_view};
use crate::gerber::find_char;
use crate::library::{part_lifecycle, validate_part_lifecycle};
use crate::text::{chars_eq, chars_of, copy_range, first_index_of, string_from_chars, trim, trim_chars};

verus! {

/// How the values given for a list or map field are combined with the
/// field's current contents.
#[derive(Debug, Clone, Copy, PartialEq, Eq, Structural)]
pub enum EditMode {
    /// Keep the current contents and add what is new.
    Merge,
    /// Put the given values in place of the current contents.
    Replace,
}

/// The edit mode named `mode`: `merge` or `replace`.
pub open spec fn edit_mode_of(mode: Seq<char>) -> Option<EditMode> {
    if mode == seq!['m', 'e', 'r', 'g', 'e'] {
        Some(EditMode::Merge)
    } else if mode == seq!['r', 'e', 'p', 'l', 'a', 'c', 'e'] {
        Some(EditMode::Replace)
    } else {
        None
    }
}

/// The edit mode named `mode`, if it names one.
pub fn parse_edit_mode(mode: &str) -> (r: Option<EditMode>)
    ensures
        r == edit_mode_of(mode@),
{
    let m = chars_of(mode);
    if chars_eq(m.as_slice(), &['m', 'e', 'r', 'g', 'e']) {
        Some(EditMode::Merge)
    } else if chars_eq(m.as_slice(), &['r', 'e', 'p', 'l', 'a', 'c', 'e']) {
        Some(EditMode::Replace)
    } else {
        None
    }
}

/// What a merge appends to the values `existing`: each of `new`, in order,
/// that is neither among `existing` nor appended already.
pub open spec fn additions(existing: Seq<Seq<char>>, new: Seq<Seq<char>>) -> Seq<Seq<char>>
    decreases new.len(),
{
    if new.len() == 0 {
        Seq::empty()
    } else {
        let a = additions(existing, new.drop_last());
        let t = new.last();
        if existing.contains(t) || a.contains(t) {
            a
        } else {
            a.push(t)
        }
    }
}

fn contains_text(v: &[String], t: &String) -> (b: bool)
    ensures
        b == texts_view(v@).contains(t@),
{
    let c = chars_of(t.as_str());
    let mut i: usize = 0;
    while i < v.len()
        invariant
            i <= v.len(),
            c@ == t@,
            forall|j: int| 0 <= j < i ==> v@[j]@ != t@,
        decreases v.len() - i,
    {
        if text_is(&v[i], c.as_slice()) {
            assert(texts_view(v@)[i as int] == t@);
            return true;
        }
        i = i + 1;
    }
    assert forall|j: int| 0 <= j < texts_view(v@).len() implies texts_view(v@)[j] != t@ by {
        assert(texts_view(v@)[j] == v@[j]@);
    }
    false
}

/// The values a merge appends to the field's current values `existing`.
pub fn list_additions(existing: &[String], new: &[String]) -> (r: Vec<String>)
    ensures
        texts_view(r@) == additions(texts_view(existing@), texts_view(new@)),
{
    let ghost e = texts_view(existing@);
    let ghost n = texts_view(new@);
    let mut out: Vec<String> = Vec::new();
    let mut i: usize = 0;
    assert(texts_view(out@) =~= additions(e, n.take(0)));
    while i < new.len()
        invariant
            i <= new.len(),
            e == texts_view(existing@),
            n == texts_view(new@),
            texts_view(out@) == additions(e, n.take(i as int)),
        decreases new.len() - i,
    {
        proof {
            let next = n.take(i + 1);
            assert(next.drop_last() =~= n.take(i as int));
            assert(next.last() == new@[i as int]@);
        }
        if !contains_text(existing, &new[i]) && !contains_text(out.as_slice(), &new[i]) {
            let ghost before = out@;
            out.push(copy_text(&new[i]));
            assert(texts_view(out@) =~= texts_view(before).push(new@[i as int]@));
        }
        i = i + 1;
    }
    assert(n.take(new.len() as int) =~= n);
    out
}

/// What a merge appends is new: none of it is among the current values,
/// and nothing is appended twice.
pub proof fn lemma_additions_are_fresh(existing: Seq<Seq<char>>, new: Seq<Seq<char>>)
    ensures
        forall|k: int|
            0 <= k < additions(existing, new).len() ==> !existing.contains(#[trigger] additions(existing, new)[k]),
        forall|j: int, k: int|
            0 <= j < k < additions(existing, new).len() ==> additions(existing, new)[j] != additions(
                existing,
                new,
            )[k],
    decreases new.len(),
{
    if new.len() > 0 {
        lemma_additions_are_fresh(existing, new.drop_last());
        let a = additions(existing, new.drop_last());
        let t = new.last();
        if !(existing.contains(t) || a.contains(t)) {
            let b = a.push(t);
            assert forall|j: int, k: int| 0 <= j < k < b.len() implies b[j] != b[k] by {
                if k == a.len() {
                    assert(b[j] == a[j]);
                    if b[j] == t {
                        assert(a.contains(t));
                    }
                }
            }
        }
    }
}

/// The values appended by a merge over fewer new values come first among
/// those appended over more.
proof fn lemma_additions_prefix(existing: Seq<Seq<char>>, new: Seq<Seq<char>>, i: int)
    requires
        0 <= i <= new.len(),
    ensures
        additions(existing, new.take(i)).len() <= additions(existing, new).len(),
        forall|k: int|
            0 <= k < additions(existing, new.take(i)).len() ==> additions(existing, new)[k] == #[trigger] additions(
                existing,
                new.take(i),
            )[k],
    decreases new.len() - i,
{
    if i < new.len() {
        lemma_additions_prefix(existing, new, i + 1);
        let pre = new.take(i + 1);
        assert(pre.drop_last() =~= new.take(i));
        assert(pre.last() == new[i]);
        let a = additions(existing, new.take(i));
        let b = additions(existing, pre);
        assert(b == a || b == a.push(new[i]));
        assert forall|k: int| 0 <= k < a.len() implies additions(existing, new)[k] == #[trigger] a[k] by {
            assert(b[k] == a[k]);
        }
    } else {
        assert(new.take(i) =~= new);
    }
}

/// After a merge, every value given is among the field's values.
pub proof fn lemma_merge_keeps_every_value(existing: Seq<Seq<char>>, new: Seq<Seq<char>>)
    ensures
        forall|i: int| 0 <= i < new.len() ==> (existing + additions(existing, new)).contains(#[trigger] new[i]),
{
    assert forall|i: int| 0 <= i < new.len() implies (existing + additions(existing, new)).contains(
        #[trigger] new[i],
    ) by {
        let pre = new.take(i + 1);
        assert(pre.drop_last() =~= new.take(i));
        assert(pre.last() == new[i]);
        let a = additions(existing, pre.drop_last());
        let merged = existing + additions(existing, new);
        lemma_additions_prefix(existing, new, i + 1);
        if existing.contains(new[i]) {
            let j = choose|j: int| 0 <= j < existing.len() && existing[j] == new[i];
            assert(merged[j] == new[i]);
        } else if a.contains(new[i]) {
            let j = choose|j: int| 0 <= j < a.len() && a[j] == new[i];
            lemma_additions_prefix(existing, pre, i);
            assert(new.take(i) =~= pre.take(i));
            assert(additions(existing, pre)[j] == a[j]);
            assert(additions(existing, new)[j] == additions(existing, pre)[j]);
            assert(merged[existing.len() + j] == new[i]);
        } else {
            let b = additions(existing, pre);
            assert(b == a.push(new[i]));
            assert(additions(existing, new)[a.len() as int] == b[a.len() as int]);
            assert(merged[(existing.len() + a.len()) as int] == new[i]);
        }
    }
}

proof fn lemma_nothing_to_add(existing: Seq<Seq<char>>, new: Seq<Seq<char>>)
    requires
        forall|i: int| 0 <= i < new.len() ==> existing.contains(#[trigger] new[i]),
    ensures
        additions(existing, new).len() == 0,
    decreases new.len(),
{
    if new.len() > 0 {
        assert forall|i: int| 0 <= i < new.drop_last().len() implies existing.contains(
            #[trigger] new.drop_last()[i],
        ) by {
            assert(new.drop_last()[i] == new[i]);
        }
        lemma_nothing_to_add(existing, new.drop_last());
        assert(existing.contains(new[new.len() - 1]));
    }
}

/// Merging the same values a second time appends nothing.
pub proof fn lemma_merge_is_idempotent(existing: Seq<Seq<char>>, new: Seq<Seq<char>>)
    ensures
        additions(existing + additions(existing, new), new).len() == 0,
{
    lemma_merge_keeps_every_value(existing, new);
    lemma_nothing_to_add(existing + additions(existing, new), new);
}

/// What is wrong with a parametric entry.
#[derive(Debug, Clone, Copy, PartialEq, Eq, Structural)]
pub enum ParametricIssue {
    MissingEquals,
    EmptyKey,
    DuplicateKey,
}

/// Why the parametric entries are refused.
#[derive(Debug, PartialEq, Eq)]
pub enum ParametricError {
    /// An entry is not of the form `key=value`.
    MissingEquals,
    /// An entry's key is empty once trimmed.
    EmptyKey,
    /// Two entries have the same key.
    DuplicateKey { key: String },
}

/// A parametric entry `key=value`, split at the first `=`: the key trimmed,
/// the value as it stands.
pub open spec fn parametric_entry(s: Seq<char>) -> Option<(Seq<char>, Seq<char>)> {
    match first_index_of(s, '=') {
        None => None,
        Some(i) => Some((trim(s.take(i as int)), s.skip(i as int + 1))),
    }
}

/// The keys of the entries, in order.
pub open spec fn entry_keys(entries: Seq<(Seq<char>, Seq<char>)>) -> Seq<Seq<char>> {
    Seq::new(entries.len(), |i: int| entries[i].0)
}

/// The entries as plain text pairs.
pub open spec fn pairs_view(v: Seq<(String, String)>) -> Seq<(Seq<char>, Seq<char>)> {
    Seq::new(v.len(), |i: int| (v[i].0@, v[i].1@))
}

/// The parametric entries in order, or the first problem with one.
pub open spec fn parametric_entries(params: Seq<String>) -> Result<
    Seq<(Seq<char>, Seq<char>)>,
    (ParametricIssue, Seq<char>),
>
    decreases params.len(),
{
    if params.len() == 0 {
        Ok(Seq::empty())
    } else {
        match parametric_entries(params.drop_last()) {
            Err(e) => Err(e),
            Ok(prev) => match parametric_entry(params.last()@) {
                None => Err((ParametricIssue::MissingEquals, Seq::empty())),
                Some((k, v)) => if k.len() == 0 {
                    Err((ParametricIssue::EmptyKey, Seq::empty()))
                } else if entry_keys(prev).contains(k) {
                    Err((ParametricIssue::DuplicateKey, k))
                } else {
                    Ok(prev.push((k, v)))
                },
            },
        }
    }
}

proof fn lemma_parametric_error_persists(params: Seq<String>, i: int)
    requires
        0 <= i <= params.len(),
        parametric_entries(params.take(i)) is Err,
    ensures
        parametric_entries(params) == parametric_entries(params.take(i)),
    decreases params.len() - i,
{
    if i < params.len() {
        assert(params.take(i + 1).drop_last() =~= params.take(i));
        lemma_parametric_error_persists(params, i + 1);
    } else {
        assert(params.take(i) =~= params);
    }
}

/// The parametric entries `key=value` in order, each key trimmed and none
/// twice, or why they are refused: the first entry without `=`, with an
/// empty key, or with a key given before.
pub fn parse_parametric_entries(params: &[String]) -> (r: Result<Vec<(String, String)>, ParametricError>)
    ensures
        match parametric_entries(params@) {
            Ok(es) => r is Ok && pairs_view(r.unwrap()@) == es,
            Err((ParametricIssue::MissingEquals, _)) => r == Err::<Vec<(String, String)>, ParametricError>(
                ParametricError::MissingEquals,
            ),
            Err((ParametricIssue::EmptyKey, _)) => r == Err::<Vec<(String, String)>, ParametricError>(
                ParametricError::EmptyKey,
            ),
            Err((ParametricIssue::DuplicateKey, k)) => r matches Err(ParametricError::DuplicateKey { key })
                && key@ == k,
        },
{
    let mut out: Vec<(String, String)> = Vec::new();
    let mut i: usize = 0;
    assert(pairs_view(out@) =~= Seq::<(Seq<char>, Seq<char>)>::empty());
    assert(params@.take(0) =~= Seq::<String>::empty());
    while i < params.len()
        invariant
            i <= params.len(),
            parametric_entries(params@.take(i as int)) == Ok::<
                Seq<(Seq<char>, Seq<char>)>,
                (ParametricIssue, Seq<char>),
            >(pairs_view(out@)),
        decreases params.len() - i,
    {
        proof {
            let next = params@.take(i + 1);
            assert(next.drop_last() =~= params@.take(i as int));
            assert(next.last() == params@[i as int]);
        }
        let s = chars_of(params[i].as_str());
        let eq = match find_char(s.as_slice(), '=') {
            None => {
                proof {
                    lemma_parametric_error_persists(params@, i + 1);
                }
                return Err(ParametricError::MissingEquals);
            },
            Some(k) => k,
        };
        proof {
            crate::text::lemma_first_index_bound(s@, '=');
            assert(first_index_of(s@, '=') == Some(eq as nat));
            assert(eq < s.len());
        }
        let key = trim_chars(copy_range(s.as_slice(), 0, eq).as_slice());
        let value = copy_range(s.as_slice(), eq + 1, s.len());
        proof {
            assert(s@.subrange(0, eq as int) =~= s@.take(eq as int));
            assert(s@.subrange(eq + 1, s@.len() as int) =~= s@.skip(eq + 1));
            assert(parametric_entry(params@[i as int]@) == Some((key@, value@)));
        }
        if key.len() == 0 {
            proof {
                lemma_parametric_error_persists(params@, i + 1);
            }
            return Err(ParametricError::EmptyKey);
        }
        let mut j: usize = 0;
        while j < out.len()
            invariant
                j <= out.len(),
                i < params.len(),
                key@.len() > 0,
                parametric_entry(params@[i as int]@) == Some((key@, value@)),
                params@.take(i + 1).drop_last() == params@.take(i as int),
                params@.take(i + 1).last() == params@[i as int],
                parametric_entries(params@.take(i as int)) == Ok::<
                    Seq<(Seq<char>, Seq<char>)>,
                    (ParametricIssue, Seq<char>),
                >(pairs_view(out@)),
                forall|m: int| 0 <= m < j ==> entry_keys(pairs_view(out@))[m] != key@,
            decreases out.len() - j,
        {
            if text_is(&out[j].0, key.as_slice()) {
                proof {
                    let prev = pairs_view(out@);
                    assert(entry_keys(prev)[j as int] == key@);
                    assert(entry_keys(prev).contains(key@));
                    assert(parametric_entries(params@.take(i + 1)) == Err::<
                        Seq<(Seq<char>, Seq<char>)>,
                        (ParametricIssue, Seq<char>),
                    >((ParametricIssue::DuplicateKey, key@)));
                    lemma_parametric_error_persists(params@, i + 1);
                }
                return Err(ParametricError::DuplicateKey { key: string_from_chars(key.as_slice()) });
            }
            j = j + 1;
        }
        let ghost before = pairs_view(out@);
        out.push((string_from_chars(key.as_slice()), string_from_chars(value.as_slice())));
        proof {
            assert(!entry_keys(before).contains(key@)) by {
                assert forall|m: int| 0 <= m < entry_keys(before).len() implies entry_keys(before)[m] != key@ by {
                }
            }
            assert(pairs_view(out@) =~= before.push((key@, value@)));
        }
        i = i + 1;
    }
    assert(params@.take(params.len() as int) =~= params@);
    Ok(out)
}

/// The metadata fields of a part that an edit sets.
#[derive(Debug, PartialEq, Eq)]
pub struct PartMetadataUpdate {
    pub mpn: Option<String>,
    pub manufacturer: Option<String>,
    pub manufacturer_jep106: Option<u16>,
    pub value: Option<String>,
    pub description: Option<String>,
    pub datasheet: Option<String>,
    pub lifecycle: Option<String>,
}

/// Why a metadata edit is refused.
#[derive(Debug, Clone, Copy, PartialEq, Eq, Structural)]
pub enum PartMetadataError {
    /// The edit sets no field.
    NoFields,
    /// The lifecycle is not one of the known ones.
    InvalidLifecycle,
    /// The JEP106 manufacturer code does not fit in 11 bits.
    InvalidJep106,
}

/// Why a metadata edit is refused, checked in this order, if it is.
pub open spec fn metadata_error(u: PartMetadataUpdate) -> Option<PartMetadataError> {
    if u.mpn is None && u.manufacturer is None && u.manufacturer_jep106 is None && u.value is None
        && u.description is None && u.datasheet is None && u.lifecycle is None {
        Some(PartMetadataError::NoFields)
    } else if u.lifecycle is Some && !part_lifecycle(u.lifecycle.unwrap()@) {
        Some(PartMetadataError::InvalidLifecycle)
    } else if u.manufacturer_jep106 is Some && u.manufacturer_jep106.unwrap() > 2047 {
        Some(PartMetadataError::InvalidJep106)
    } else {
        None
    }
}

/// A metadata edit as it is applied, or why it is refused: it must set a
/// field, name a known lifecycle and carry an 11-bit JEP106 code.
pub fn validate_part_metadata_update(u: PartMetadataUpdate) -> (r: Result<PartMetadataUpdate, PartMetadataError>)
    ensures
        match metadata_error(u) {
            Some(e) => r == Err::<PartMetadataUpdate, PartMetadataError>(e),
            None => r == Ok::<PartMetadataUpdate, PartMetadataError>(u),
        },
{
    let ghost given = u;
    let PartMetadataUpdate { mpn, manufacturer, manufacturer_jep106, value, description, datasheet, lifecycle } =
        u;
    if mpn.is_none() && manufacturer.is_none() && manufacturer_jep106.is_none() && value.is_none()
        && description.is_none() && datasheet.is_none() && lifecycle.is_none() {
        return Err(PartMetadataError::NoFields);
    }
    let lifecycle = match lifecycle {
        None => None,
        Some(l) => match validate_part_lifecycle(l) {
            Ok(l) => Some(l),
            Err(()) => {
                return Err(PartMetadataError::InvalidLifecycle);
            },
        },
    };
    if let Some(code) = manufacturer_jep106 {
        if code > 2047 {
            return Err(PartMetadataError::InvalidJep106);
        }
    }
    let r = PartMetadataUpdate { mpn, manufacturer, manufacturer_jep106, value, description, datasheet, lifecycle };
    assert(r == given);
    Ok(r)
}

/// How a thermal edit changes the part's thermal record.
#[derive(Debug, Clone, Copy, PartialEq, Eq, Structural)]
pub enum ThermalEdit {
    /// Remove the record.
    Remove,
    /// Build a new record from the given fields alone.
    Rebuild,
    /// Set the given fields in the current record.
    Update,
}

/// How a thermal edit changes the record: it must clear the record or set
/// a field; clearing without fields removes it, clearing with fields
/// rebuilds it, and fields alone update it.
pub fn plan_thermal_edit(clear: bool, any_field: bool) -> (r: Option<ThermalEdit>)
    ensures
        r == if !clear && !any_field {
            None::<ThermalEdit>
        } else if !any_field {
            Some(ThermalEdit::Remove)
        } else if clear {
            Some(ThermalEdit::Rebuild)
        } else {
            Some(ThermalEdit::Update)
        },
{
    if !clear && !any_field {
        None
    } else if !any_field {
        Some(ThermalEdit::Remove)
    } else if clear {
        Some(ThermalEdit::Rebuild)
    } else {
        Some(ThermalEdit::Update)
    }
}

/// A thermal reference, trimmed; one that is empty once trimmed is refused.
pub fn normalize_thermal_reference(reference: Option<String>) -> (r: Result<Option<String>, ()>)
    ensures
        match reference {
            None => r == Ok::<Option<String>, ()>(None),
            Some(t) => if trim(t@).len() == 0 {
                r is Err
            } else {
                r is Ok && r.unwrap() is Some && r.unwrap().unwrap()@ == trim(t@)
            },
        },
{
    match reference {
        None => Ok(None),
        Some(t) => {
            let c = trim_chars(chars_of(t.as_str()).as_slice());
            if c.len() == 0 {
                Err(())
            } else {
                Ok(Some(string_from_chars(c.as_slice())))
            }
        },
    }
}

/// A supply-chain edit must clear the cache, give a check time or give an
/// offer; the check time is kept trimmed, and dropped when blank.
pub fn plan_supply_chain_edit(clear: bool, checked_at: Option<String>, offer_count: usize) -> (r: Result<
    Option<String>,
    (),
>)
    ensures
        (!clear && checked_at is None && offer_count == 0) ==> r is Err,
        !(!clear && checked_at is None && offer_count == 0) ==> r is Ok && match checked_at {
            None => r.unwrap() is None,
            Some(t) => if trim(t@).len() == 0 {
                r.unwrap() is None
            } else {
                r.unwrap() is Some && r.unwrap().unwrap()@ == trim(t@)
            },
        },
{
    if !clear && checked_at.is_none() && offer_count == 0 {
        return Err(());
    }
    Ok(crate::library::normalize_optional_string(checked_at))
}

/// One price break of a supply offer: its quantity, whether its price is
/// below zero, and its currency.
#[derive(Debug, Clone, PartialEq, Eq)]
pub struct PriceBreak {
    pub qty: u64,
    pub price_negative: bool,
    pub currency: String,
}

/// A supply offer of a part: distributor, link and price breaks.
#[derive(Debug, Clone, PartialEq, Eq)]
pub struct SupplyOffer {
    pub distributor: String,
    pub link: String,
    pub price_breaks: Vec<PriceBreak>,
}

/// Why a supply offer is refused.
#[derive(Debug, Clone, Copy, PartialEq, Eq, Structural)]
pub enum SupplyOfferError {
    /// The distributor is empty once trimmed.
    EmptyDistributor,
    /// The link is empty once trimmed.
    EmptyLink,
    /// A price break is for no units.
    ZeroQuantity,
    /// A price break's price is below zero.
    NegativePrice,
    /// A price break's currency is empty once trimmed.
    EmptyCurrency,
}

/// The first problem of the price breaks, in order, each checked for its
/// quantity, then its price, then its currency.
pub open spec fn price_breaks_error(b: Seq<PriceBreak>) -> Option<SupplyOfferError>
    decreases b.len(),
{
    if b.len() == 0 {
        None
    } else if b[0].qty == 0 {
        Some(SupplyOfferError::ZeroQuantity)
    } else if b[0].price_negative {
        Some(SupplyOfferError::NegativePrice)
    } else if trim(b[0].currency@).len() == 0 {
        Some(SupplyOfferError::EmptyCurrency)
    } else {
        price_breaks_error(b.drop_first())
    }
}

/// The first problem of a supply offer: its distributor, its link, then its
/// price breaks in order.
pub open spec fn supply_offer_error(o: SupplyOffer) -> Option<SupplyOfferError> {
    if trim(o.distributor@).len() == 0 {
        Some(SupplyOfferError::EmptyDistributor)
    } else if trim(o.link@).len() == 0 {
        Some(SupplyOfferError::EmptyLink)
    } else {
        price_breaks_error(o.price_breaks@)
    }
}

fn blank(s: &String) -> (r: bool)
    ensures
        r == (trim(s@).len() == 0),
{
    trim_chars(chars_of(s.as_str()).as_slice()).len() == 0
}

/// A supply offer must name a distributor and a link, and each of its price
/// breaks must be for some units, at a price not below zero, in a named
/// currency; the first problem is reported.
pub fn validate_supply_offer(offer: &SupplyOffer) -> (r: Result<(), SupplyOfferError>)
    ensures
        match supply_offer_error(*offer) {
            None => r is Ok,
            Some(e) => r == Err::<(), SupplyOfferError>(e),
        },
{
    if blank(&offer.distributor) {
        return Err(SupplyOfferError::EmptyDistributor);
    }
    if blank(&offer.link) {
        return Err(SupplyOfferError::EmptyLink);
    }
    let ghost b = offer.price_breaks@;
    let mut i: usize = 0;
    assert(b.skip(0) =~= b);
    while i < offer.price_breaks.len()
        invariant
            i <= b.len(),
            b == offer.price_breaks@,
            supply_offer_error(*offer) == price_breaks_error(b),
            price_breaks_error(b) == price_breaks_error(b.skip(i as int)),
        decreases b.len() - i,
    {
        let pb = &offer.price_breaks[i];
        proof {
            let rest = b.skip(i as int);
            assert(rest[0] == b[i as int]);
            assert(rest.drop_first() =~= b.skip(i + 1));
        }
        if pb.qty == 0 {
            return Err(SupplyOfferError::ZeroQuantity);
        }
        if pb.price_negative {
            return Err(SupplyOfferError::NegativePrice);
        }
        if blank(&pb.currency) {
            return Err(SupplyOfferError::EmptyCurrency);
        }
        i = i + 1;
    }
    assert(b.skip(i as int) =~= Seq::<PriceBreak>::empty());
    Ok(())
}

} // verus!
