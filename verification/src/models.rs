//! Model files of pool parts and packages: their formats, where a part's
//! behavioural model blob is stored, and the checks an attachment must
//! pass.
use vstd::prelude::*;
use crate::ids::{hex_text, sha256_hex, sha256_of};
use crate::render::push_chars;
use crate::text::{chars_of, string_from_chars, trim, trim_chars};

verus! {

/// The extension of the path's file name, as `std::path::Path::extension`
/// finds it.
pub uninterp spec fn path_extension_of(path: Seq<char>) -> Option<Seq<char>>;

/// The extension of a path by `std::path::Path::extension`, as text.
/// Claimed: the result is named `path_extension_of` of the path; the rules
/// of the standard library (last `.` of the file name, none for a name
/// that starts with its only `.`) are left to the name.
#[verifier::external_body]
fn path_extension(path: &str) -> (r: Option<String>)
    ensures
        match r {
            None => path_extension_of(path@) is None,
            Some(e) => path_extension_of(path@) == Some(e@),
        },
{
    match std::path::Path::new(path).extension() {
        None => None,
        Some(e) => match e.to_str() {
            None => None,
            Some(s) => Some(s.to_string()),
        },
    }
}

/// The character with ASCII letters lowercased.
pub open spec fn ascii_lower_char(c: char) -> char {
    if 'A' <= c && c <= 'Z' {
        ((c as u32) + 32) as char
    } else {
        c
    }
}

/// The text with ASCII letters lowercased (`str::to_ascii_lowercase`).
pub open spec fn ascii_lower(s: Seq<char>) -> Seq<char> {
    Seq::new(s.len(), |i: int| ascii_lower_char(s[i]))
}

fn lower_char(c: char) -> (r: char)
    ensures
        r == ascii_lower_char(c),
{
    if 'A' <= c && c <= 'Z' {
        let b: u8 = (c as u32 + 32) as u8;
        b as char
    } else {
        c
    }
}

fn lower(s: &[char]) -> (r: Vec<char>)
    ensures
        r@ == ascii_lower(s@),
{
    let mut out: Vec<char> = Vec::new();
    let mut i: usize = 0;
    while i < s.len()
        invariant
            i <= s.len(),
            out@ == ascii_lower(s@.take(i as int)),
        decreases s.len() - i,
    {
        out.push(lower_char(s[i]));
        assert(ascii_lower(s@.take(i + 1)) =~= ascii_lower(s@.take(i as int)).push(ascii_lower_char(s@[i as int])));
        i = i + 1;
    }
    assert(s@.take(s.len() as int) =~= s@);
    out
}

/// The format of a 3D model file.
#[derive(Debug, Clone, Copy, PartialEq, Eq, Structural)]
pub enum ModelFormat {
    Step,
    Wrl,
    Iges,
    Obj,
    Gltf,
}

/// The format a lowercase name stands for.
pub open spec fn format_named(name: Seq<char>) -> Option<ModelFormat> {
    if name == seq!['s', 't', 'e', 'p'] || name == seq!['s', 't', 'p'] {
        Some(ModelFormat::Step)
    } else if name == seq!['w', 'r', 'l'] || name == seq!['v', 'r', 'm', 'l'] {
        Some(ModelFormat::Wrl)
    } else if name == seq!['i', 'g', 's'] || name == seq!['i', 'g', 'e', 's'] {
        Some(ModelFormat::Iges)
    } else if name == seq!['o', 'b', 'j'] {
        Some(ModelFormat::Obj)
    } else if name == seq!['g', 'l', 't', 'f'] || name == seq!['g', 'l', 'b'] {
        Some(ModelFormat::Gltf)
    } else {
        None
    }
}

fn format_of(name: &[char]) -> (r: Option<ModelFormat>)
    ensures
        r == format_named(name@),
{
    let n = name;
    if crate::text::chars_eq(n, &['s', 't', 'e', 'p']) || crate::text::chars_eq(n, &['s', 't', 'p']) {
        Some(ModelFormat::Step)
    } else if crate::text::chars_eq(n, &['w', 'r', 'l']) || crate::text::chars_eq(n, &['v', 'r', 'm', 'l']) {
        Some(ModelFormat::Wrl)
    } else if crate::text::chars_eq(n, &['i', 'g', 's']) || crate::text::chars_eq(n, &['i', 'g', 'e', 's']) {
        Some(ModelFormat::Iges)
    } else if crate::text::chars_eq(n, &['o', 'b', 'j']) {
        Some(ModelFormat::Obj)
    } else if crate::text::chars_eq(n, &['g', 'l', 't', 'f']) || crate::text::chars_eq(n, &['g', 'l', 'b']) {
        Some(ModelFormat::Gltf)
    } else {
        None
    }
}

/// Why a model format cannot be had.
#[derive(Debug, Clone, Copy, PartialEq, Eq, Structural)]
pub enum ModelFormatError {
    /// No format was given and the file's extension names none.
    NotInferable,
    /// The format given is not a known one.
    Unsupported,
}

/// The format of a package model: the one given (trimmed, any case) when
/// it is not blank, else the one the file's extension names.
pub open spec fn model_format(format: Option<Seq<char>>, model_path: Seq<char>) -> Result<ModelFormat, ModelFormatError> {
    if format is Some && trim(format.unwrap()).len() > 0 {
        match format_named(ascii_lower(trim(format.unwrap()))) {
            Some(f) => Ok(f),
            None => Err(ModelFormatError::Unsupported),
        }
    } else {
        let ext = match path_extension_of(model_path) {
            Some(e) => e,
            None => Seq::empty(),
        };
        match format_named(ascii_lower(ext)) {
            Some(f) => Ok(f),
            None => Err(ModelFormatError::NotInferable),
        }
    }
}

/// The format of a package model file.
pub fn parse_model_format(format: Option<&str>, model_path: &str) -> (r: Result<ModelFormat, ModelFormatError>)
    ensures
        r == model_format(
            match format {
                Some(f) => Some(f@),
                None => None,
            },
            model_path@,
        ),
{
    if let Some(f) = format {
        let t = trim_chars(chars_of(f).as_slice());
        if t.len() > 0 {
            let l = lower(t.as_slice());
            return match format_of(l.as_slice()) {
                Some(m) => Ok(m),
                None => Err(ModelFormatError::Unsupported),
            };
        }
    }
    let ext: Vec<char> = match path_extension(model_path) {
        Some(e) => chars_of(e.as_str()),
        None => Vec::new(),
    };
    let l = lower(ext.as_slice());
    match format_of(l.as_slice()) {
        Some(m) => Ok(m),
        None => Err(ModelFormatError::NotInferable),
    }
}

/// What a behavioural model of a part is for.
#[derive(Debug, Clone, Copy, PartialEq, Eq, Structural)]
pub enum ModelRole {
    Spice,
    Ibis,
    IbisIss,
    IbisAmi,
    Touchstone,
    VerilogA,
    VerilogAms,
    VhdlAms,
    CompactThermal,
}

/// The directory, under a pool's `models`, of a role's blobs.
pub open spec fn role_directory(role: ModelRole) -> Seq<char> {
    match role {
        ModelRole::Spice => seq!['s', 'p', 'i', 'c', 'e'],
        ModelRole::Ibis => seq!['i', 'b', 'i', 's'],
        ModelRole::IbisIss => seq!['i', 'b', 'i', 's', '_', 'i', 's', 's'],
        ModelRole::IbisAmi => seq!['a', 'm', 'i'],
        ModelRole::Touchstone => seq!['t', 'o', 'u', 'c', 'h', 's', 't', 'o', 'n', 'e'],
        ModelRole::VerilogA => seq!['v', 'e', 'r', 'i', 'l', 'o', 'g', '_', 'a'],
        ModelRole::VerilogAms => seq!['v', 'e', 'r', 'i', 'l', 'o', 'g', '_', 'a', 'm', 's'],
        ModelRole::VhdlAms => seq!['v', 'h', 'd', 'l', '_', 'a', 'm', 's'],
        ModelRole::CompactThermal => seq!['t', 'h', 'e', 'r', 'm', 'a', 'l'],
    }
}

/// The extension a role's blob gets when its source file has none.
pub open spec fn role_extension(role: ModelRole) -> Seq<char> {
    match role {
        ModelRole::Spice => seq!['l', 'i', 'b'],
        ModelRole::Ibis => seq!['i', 'b', 's'],
        ModelRole::IbisIss => seq!['p', 'k', 'g'],
        ModelRole::IbisAmi => seq!['a', 'm', 'i'],
        ModelRole::Touchstone => seq!['s', 'n', 'p'],
        ModelRole::VerilogA => seq!['v', 'a'],
        ModelRole::VerilogAms => seq!['v', 'a', 'm', 's'],
        ModelRole::VhdlAms => seq!['v', 'h', 'd'],
        ModelRole::CompactThermal => seq!['x', 'm', 'l'],
    }
}

fn role_dir_chars(role: ModelRole) -> (r: &'static [char])
    ensures
        r@ == role_directory(role),
{
    match role {
        ModelRole::Spice => &['s', 'p', 'i', 'c', 'e'],
        ModelRole::Ibis => &['i', 'b', 'i', 's'],
        ModelRole::IbisIss => &['i', 'b', 'i', 's', '_', 'i', 's', 's'],
        ModelRole::IbisAmi => &['a', 'm', 'i'],
        ModelRole::Touchstone => &['t', 'o', 'u', 'c', 'h', 's', 't', 'o', 'n', 'e'],
        ModelRole::VerilogA => &['v', 'e', 'r', 'i', 'l', 'o', 'g', '_', 'a'],
        ModelRole::VerilogAms => &['v', 'e', 'r', 'i', 'l', 'o', 'g', '_', 'a', 'm', 's'],
        ModelRole::VhdlAms => &['v', 'h', 'd', 'l', '_', 'a', 'm', 's'],
        ModelRole::CompactThermal => &['t', 'h', 'e', 'r', 'm', 'a', 'l'],
    }
}

fn role_ext_chars(role: ModelRole) -> (r: &'static [char])
    ensures
        r@ == role_extension(role),
{
    match role {
        ModelRole::Spice => &['l', 'i', 'b'],
        ModelRole::Ibis => &['i', 'b', 's'],
        ModelRole::IbisIss => &['p', 'k', 'g'],
        ModelRole::IbisAmi => &['a', 'm', 'i'],
        ModelRole::Touchstone => &['s', 'n', 'p'],
        ModelRole::VerilogA => &['v', 'a'],
        ModelRole::VerilogAms => &['v', 'a', 'm', 's'],
        ModelRole::VhdlAms => &['v', 'h', 'd'],
        ModelRole::CompactThermal => &['x', 'm', 'l'],
    }
}

/// The directory of a role's model blobs.
pub fn model_role_directory(role: ModelRole) -> (r: String)
    ensures
        r@ == role_directory(role),
{
    string_from_chars(role_dir_chars(role))
}

/// The extension a role's model blob gets when its source has none.
pub fn default_model_extension(role: ModelRole) -> (r: String)
    ensures
        r@ == role_extension(role),
{
    string_from_chars(role_ext_chars(role))
}

/// The extension of a stored model blob: the source file's, trimmed, when
/// it has a non-blank one, else the role's default.
pub open spec fn blob_extension(source_extension: Option<Seq<char>>, role: ModelRole) -> Seq<char> {
    match source_extension {
        Some(e) => if trim(e).len() > 0 {
            trim(e)
        } else {
            role_extension(role)
        },
        None => role_extension(role),
    }
}

/// Where a part's behavioural model blob is stored, under the pool:
/// `models/<role directory>/<sha256 of the bytes>.<extension>`.
pub open spec fn model_blob_path(pool_path: Seq<char>, role: ModelRole, source: Seq<char>, bytes: Seq<u8>) -> Seq<
    char,
> {
    pool_path + seq!['/', 'm', 'o', 'd', 'e', 'l', 's', '/'] + role_directory(role) + seq!['/'] + hex_text(
        sha256_of(bytes),
    ) + seq!['.'] + blob_extension(path_extension_of(source), role)
}

/// The path, relative to the project, where a part's behavioural model
/// with these bytes, read from `source_path`, is stored.
pub fn part_model_blob_path(pool_path: &str, role: ModelRole, source_path: &str, model_bytes: &[u8]) -> (r: String)
    ensures
        r@ == model_blob_path(pool_path@, role, source_path@, model_bytes@),
{
    let sha = sha256_hex(model_bytes);
    let ext: Vec<char> = match path_extension(source_path) {
        Some(e) => {
            let t = trim_chars(chars_of(e.as_str()).as_slice());
            if t.len() > 0 {
                t
            } else {
                {
                    let mut v: Vec<char> = Vec::new();
                    push_chars(&mut v, role_ext_chars(role));
                    v
                }
            }
        },
        None => {
            let mut v: Vec<char> = Vec::new();
            push_chars(&mut v, role_ext_chars(role));
            v
        },
    };
    let mut out: Vec<char> = Vec::new();
    push_chars(&mut out, chars_of(pool_path).as_slice());
    push_chars(&mut out, &['/', 'm', 'o', 'd', 'e', 'l', 's', '/']);
    push_chars(&mut out, role_dir_chars(role));
    push_chars(&mut out, &['/']);
    push_chars(&mut out, chars_of(sha.as_str()).as_slice());
    push_chars(&mut out, &['.']);
    push_chars(&mut out, ext.as_slice());
    string_from_chars(out.as_slice())
}

/// Why a behavioural model attachment is refused.
#[derive(Debug, Clone, Copy, PartialEq, Eq, Structural)]
pub enum AttachmentError {
    /// A model name is empty once trimmed.
    BlankModelName,
    /// An encryption scheme is given for a model that is not encrypted.
    SchemeWithoutEncryption,
    /// The provenance's source or digest is empty once trimmed.
    BlankProvenance,
}

/// Why the attachment is refused, if it is: its model names, encryption
/// and provenance (source and digest) are checked in this order.
pub open spec fn attachment_problem(
    model_names: Seq<String>,
    has_encryption_scheme: bool,
    encrypted: bool,
    provenance: Option<(Seq<char>, Seq<char>)>,
) -> Option<AttachmentError> {
    if exists|i: int| 0 <= i < model_names.len() && trim(#[trigger] model_names[i]@).len() == 0 {
        Some(AttachmentError::BlankModelName)
    } else if has_encryption_scheme && !encrypted {
        Some(AttachmentError::SchemeWithoutEncryption)
    } else if provenance is Some && (trim(provenance.unwrap().0).len() == 0 || trim(provenance.unwrap().1).len()
        == 0) {
        Some(AttachmentError::BlankProvenance)
    } else {
        None
    }
}

/// Checks a behavioural model attachment: non-blank model names, an
/// encryption scheme only when encrypted, and a provenance (source and
/// SHA-256) that is not blank.
pub fn validate_model_attachment(
    model_names: &[String],
    has_encryption_scheme: bool,
    encrypted: bool,
    provenance: Option<(&str, &str)>,
) -> (r: Result<(), AttachmentError>)
    ensures
        r == match attachment_problem(
            model_names@,
            has_encryption_scheme,
            encrypted,
            match provenance {
                Some((s, d)) => Some((s@, d@)),
                None => None,
            },
        ) {
            Some(e) => Err::<(), AttachmentError>(e),
            None => Ok(()),
        },
{
    let mut i: usize = 0;
    while i < model_names.len()
        invariant
            i <= model_names.len(),
            forall|j: int| 0 <= j < i ==> trim(#[trigger] model_names@[j]@).len() > 0,
        decreases model_names.len() - i,
    {
        if trim_chars(chars_of(model_names[i].as_str()).as_slice()).len() == 0 {
            assert(trim(model_names@[i as int]@).len() == 0);
            return Err(AttachmentError::BlankModelName);
        }
        i = i + 1;
    }
    if has_encryption_scheme && !encrypted {
        return Err(AttachmentError::SchemeWithoutEncryption);
    }
    if let Some((source, digest)) = provenance {
        if trim_chars(chars_of(source).as_slice()).len() == 0 || trim_chars(chars_of(digest).as_slice()).len() == 0 {
            return Err(AttachmentError::BlankProvenance);
        }
    }
    Ok(())
}

} // verus!
