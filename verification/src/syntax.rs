//! Validation of the language descriptors a loaded syntax bundle reports.
//!
//! The bundle is a native library loaded at run time; its exports are called
//! by the application, which hands the numbers and byte slices they report to
//! the functions here. Which export is called next is decided by
//! [`next_call`] and [`bundle_step`].

use vstd::prelude::*;
use vstd::string::*;
use vstd::utf8::*;

use crate::text::{decimal, push_decimal};

verus! {

/// The descriptor layout this application understands.
pub const ABI_VERSION: u32 = 1;

/// More languages than this means the bundle's count is corrupt.
pub const MAX_LANGUAGES: u32 = 128;

/// Why a bundle as a whole is refused.
#[derive(Debug, Clone, Copy, PartialEq, Eq, Structural)]
pub enum BundleError {
    /// The bundle reports another descriptor layout.
    AbiMismatch(u32),
    /// The bundle reports more languages than any real bundle holds.
    TooManyLanguages(u32),
    /// The bundle refused to describe the language at this index.
    Rejected(u32),
    /// The language at this index has an invalid descriptor.
    InvalidLanguage(u32),
}

/// The sentence a bundle refusal is reported with, for the bundle at `path`.
pub open spec fn bundle_error_message(e: BundleError, path: Seq<char>) -> Seq<char> {
    match e {
        BundleError::AbiMismatch(v) => path + " uses ABI version "@ + decimal(v as nat)
            + ", expected "@ + decimal(ABI_VERSION as nat),
        BundleError::TooManyLanguages(c) => path + " reports an invalid language count of "@
            + decimal(c as nat),
        BundleError::Rejected(i) => path + " rejected language index "@ + decimal(i as nat),
        BundleError::InvalidLanguage(i) => path + " returned an invalid language at index "@
            + decimal(i as nat),
    }
}

impl BundleError {
    /// The sentence this refusal is reported with, for the bundle at `path`.
    pub fn message(&self, path: &str) -> (r: String)
        ensures
            r@ == bundle_error_message(*self, path@),
    {
        let mut r = String::from_str(path);
        match self {
            BundleError::AbiMismatch(v) => {
                r.append(" uses ABI version ");
                push_decimal(&mut r, *v as u64);
                r.append(", expected ");
                push_decimal(&mut r, ABI_VERSION as u64);
            },
            BundleError::TooManyLanguages(c) => {
                r.append(" reports an invalid language count of ");
                push_decimal(&mut r, *c as u64);
            },
            BundleError::Rejected(i) => {
                r.append(" rejected language index ");
                push_decimal(&mut r, *i as u64);
            },
            BundleError::InvalidLanguage(i) => {
                r.append(" returned an invalid language at index ");
                push_decimal(&mut r, *i as u64);
            },
        }
        r
    }
}

/// Checks the bundle's reported descriptor layout. It is judged before the
/// language count is read, since a bundle of another layout may export no
/// count at all.
pub fn check_abi_version(abi_version: u32) -> (r: Result<(), BundleError>)
    ensures
        r == if abi_version != ABI_VERSION {
            Err(BundleError::AbiMismatch(abi_version))
        } else {
            Ok::<(), BundleError>(())
        },
{
    if abi_version != ABI_VERSION {
        return Err(BundleError::AbiMismatch(abi_version));
    }
    Ok(())
}

/// Checks the language count of a bundle whose layout matched, and yields
/// the count of descriptors to read.
pub fn check_language_count(language_count: u32) -> (r: Result<u32, BundleError>)
    ensures
        r == if language_count > MAX_LANGUAGES {
            Err(BundleError::TooManyLanguages(language_count))
        } else {
            Ok::<u32, BundleError>(language_count)
        },
{
    if language_count > MAX_LANGUAGES {
        return Err(BundleError::TooManyLanguages(language_count));
    }
    Ok(language_count)
}

/// Why one language descriptor is refused.
#[derive(Debug, Clone, Copy, PartialEq, Eq, Structural)]
pub enum DescriptorError {
    /// A string field has a length but a null pointer.
    NullText,
    /// A string field is not UTF-8.
    NotUtf8,
    /// The language has an empty name.
    EmptyName,
    /// The descriptor has no language builder.
    NullBuilder,
}

/// The sentence a descriptor refusal is reported with.
pub open spec fn descriptor_error_message(e: DescriptorError) -> Seq<char> {
    match e {
        DescriptorError::NullText => "null string pointer with non-zero length"@,
        DescriptorError::NotUtf8 => "language data is not UTF-8"@,
        DescriptorError::EmptyName => "empty language name"@,
        DescriptorError::NullBuilder => "null language builder"@,
    }
}

impl DescriptorError {
    /// The sentence this refusal is reported with.
    pub fn message(&self) -> (r: String)
        ensures
            r@ == descriptor_error_message(*self),
    {
        match self {
            DescriptorError::NullText => String::from_str("null string pointer with non-zero length"),
            DescriptorError::NotUtf8 => String::from_str("language data is not UTF-8"),
            DescriptorError::EmptyName => String::from_str("empty language name"),
            DescriptorError::NullBuilder => String::from_str("null language builder"),
        }
    }
}

/// Reads `bytes` as UTF-8.
///
/// Trusted: calls `std::str::from_utf8`, which succeeds exactly on valid
/// UTF-8 and then returns a string slice over the same bytes.
#[verifier::external_body]
fn utf8_text(bytes: &[u8]) -> (r: Option<&str>)
    ensures
        r is Some <==> valid_utf8(bytes@),
        r matches Some(s) ==> s.spec_bytes() == bytes@ && s@ == decode_utf8(bytes@),
{
    std::str::from_utf8(bytes).ok()
}

/// The bytes of an optional slice.
pub open spec fn slice_view(bytes: Option<&[u8]>) -> Option<Seq<u8>> {
    match bytes {
        Some(b) => Some(b@),
        None => None,
    }
}

/// The text a descriptor string field holds: empty when its length is zero,
/// refused when it has a length but no storage or is not UTF-8.
pub open spec fn field_text(len: usize, bytes: Option<Seq<u8>>) -> Result<Seq<char>, DescriptorError> {
    if len == 0 {
        Ok(Seq::empty())
    } else {
        match bytes {
            None => Err(DescriptorError::NullText),
            Some(b) => if valid_utf8(b) {
                Ok(decode_utf8(b))
            } else {
                Err(DescriptorError::NotUtf8)
            },
        }
    }
}

/// Reads a descriptor string field of `len` bytes; `bytes` is `None` when
/// the field's pointer is null.
pub fn text(len: usize, bytes: Option<&[u8]>) -> (r: Result<&str, DescriptorError>)
    requires
        bytes matches Some(b) ==> b@.len() == len,
    ensures
        match r {
            Ok(s) => field_text(len, slice_view(bytes)) == Ok::<Seq<char>, DescriptorError>(
                s@,
            ),
            Err(e) => field_text(len, slice_view(bytes)) == Err::<Seq<char>, DescriptorError>(
                e,
            ),
        },
{
    if len == 0 {
        let r = "";
        proof {
            reveal_strlit("");
            assert(r@ =~= Seq::<char>::empty());
        }
        return Ok(r);
    }
    match bytes {
        None => Err(DescriptorError::NullText),
        Some(b) => match utf8_text(b) {
            Some(s) => Ok(s),
            None => Err(DescriptorError::NotUtf8),
        },
    }
}

/// How many characters of `s` from `i` precede the next `\0` (or the end).
pub open spec fn nul_field_len(s: Seq<char>, i: int) -> nat
    decreases s.len() - i,
{
    if i < 0 || i >= s.len() || s[i] == '\0' {
        0
    } else {
        1 + nul_field_len(s, i + 1)
    }
}

/// The end of the `\0`-terminated field of `s` starting at `i`.
pub open spec fn nul_field_end(s: Seq<char>, i: int) -> int {
    i + nul_field_len(s, i)
}

/// A field ends within the text, at a `\0` or at the end, with no `\0` before.
proof fn lemma_nul_field_end_bounds(s: Seq<char>, i: int)
    requires
        0 <= i <= s.len(),
    ensures
        i <= nul_field_end(s, i) <= s.len(),
        nul_field_end(s, i) < s.len() ==> s[nul_field_end(s, i)] == '\0',
        forall|k: int| i <= k < nul_field_end(s, i) ==> #[trigger] s[k] != '\0',
    decreases s.len() - i,
{
    if i < s.len() && s[i] != '\0' {
        lemma_nul_field_end_bounds(s, i + 1);
    }
}

/// The non-empty `\0`-separated entries of `s[i..]`, in order.
pub open spec fn nul_entries(s: Seq<char>, i: int) -> Seq<Seq<char>>
    decreases s.len() - i,
{
    if i < 0 || i >= s.len() {
        Seq::empty()
    } else {
        let e = nul_field_end(s, i);
        let rest = if e < s.len() {
            nul_entries(s, e + 1)
        } else {
            Seq::empty()
        };
        if e > i {
            seq![s.subrange(i, e)] + rest
        } else {
            rest
        }
    }
}

/// Splits a `\0`-separated list, dropping empty entries.
pub fn split_entries(s: &str) -> (r: Vec<String>)
    ensures
        r@.len() == nul_entries(s@, 0).len(),
        forall|k: int| 0 <= k < r@.len() ==> #[trigger] r@[k]@ == nul_entries(s@, 0)[k],
{
    let n = s.unicode_len();
    let mut r: Vec<String> = Vec::new();
    let mut i: usize = 0;
    while i < n
        invariant
            n == s@.len(),
            i <= n,
            r@.len() + nul_entries(s@, i as int).len() == nul_entries(s@, 0).len(),
            forall|k: int| 0 <= k < r@.len() ==> #[trigger] r@[k]@ == nul_entries(s@, 0)[k],
            forall|k: int|
                0 <= k < nul_entries(s@, i as int).len() ==> #[trigger] nul_entries(s@, i as int)[k]
                    == nul_entries(s@, 0)[r@.len() + k],
        decreases n - i,
    {
        let mut e: usize = i;
        while e < n && s.get_char(e) != '\0'
            invariant
                n == s@.len(),
                i <= e <= n,
                nul_field_end(s@, e as int) == nul_field_end(s@, i as int),
            decreases n - e,
        {
            e = e + 1;
        }
        proof {
            lemma_nul_field_end_bounds(s@, i as int);
        }
        let ghost before = nul_entries(s@, i as int);
        let ghost rest = nul_entries(s@, e + 1);
        if e > i {
            let entry = String::from_str(s.substring_char(i, e));
            proof {
                assert(before =~= seq![s@.subrange(i as int, e as int)] + rest);
                assert(before[0] == nul_entries(s@, 0)[r@.len() as int]);
                assert forall|k: int| 0 <= k < rest.len() implies #[trigger] rest[k]
                    == nul_entries(s@, 0)[r@.len() + 1 + k] by {
                    assert(rest[k] == before[k + 1]);
                }
            }
            r.push(entry);
        } else {
            proof {
                assert(before =~= rest);
            }
        }
        if e < n {
            i = e + 1;
        } else {
            i = n;
        }
    }
    proof {
        assert(nul_entries(s@, i as int).len() == 0);
    }
    r
}

/// Reads a `\0`-separated descriptor list field: its non-empty entries.
pub fn list(len: usize, bytes: Option<&[u8]>) -> (r: Result<Vec<String>, DescriptorError>)
    requires
        bytes matches Some(b) ==> b@.len() == len,
    ensures
        match field_text(len, slice_view(bytes)) {
            Ok(t) => r matches Ok(entries) && entries@.len() == nul_entries(t, 0).len() && forall|
                k: int,
            | 0 <= k < entries@.len() ==> #[trigger] entries@[k]@ == nul_entries(t, 0)[k],
            Err(e) => r == Err::<Vec<String>, DescriptorError>(e),
        },
{
    match text(len, bytes) {
        Ok(t) => Ok(split_entries(t)),
        Err(e) => Err(e),
    }
}

/// The checks made on a descriptor's name and builder before the language
/// is built: the name must not be empty, then the builder must be present.
pub fn check_descriptor(name: &str, has_builder: bool) -> (r: Result<(), DescriptorError>)
    ensures
        r == if name@.len() == 0 {
            Err(DescriptorError::EmptyName)
        } else if !has_builder {
            Err(DescriptorError::NullBuilder)
        } else {
            Ok::<(), DescriptorError>(())
        },
{
    if name.is_empty() {
        return Err(DescriptorError::EmptyName);
    }
    if !has_builder {
        return Err(DescriptorError::NullBuilder);
    }
    Ok(())
}

/// Every entry of a list is non-empty and holds no `\0`.
pub proof fn lemma_entries_are_names(s: Seq<char>, i: int)
    requires
        0 <= i,
    ensures
        forall|k: int|
            0 <= k < nul_entries(s, i).len() ==> (#[trigger] nul_entries(s, i)[k]).len() > 0
                && forall|m: int| 0 <= m < nul_entries(s, i)[k].len() ==> nul_entries(s, i)[k][m]
                != '\0',
    decreases s.len() - i,
{
    if i < s.len() {
        lemma_nul_field_end_bounds(s, i);
        let e = nul_field_end(s, i);
        if e < s.len() {
            lemma_entries_are_names(s, e + 1);
        }
        let rest = if e < s.len() {
            nul_entries(s, e + 1)
        } else {
            Seq::empty()
        };
        if e > i {
            let entry = s.subrange(i, e);
            assert(nul_entries(s, i) == seq![entry] + rest);
            assert forall|m: int| 0 <= m < entry.len() implies entry[m] != '\0' by {
                assert(entry[m] == s[i + m]);
            }
            assert forall|k: int| 0 <= k < nul_entries(s, i).len() implies (#[trigger] nul_entries(
                s,
                i,
            )[k]).len() > 0 && forall|m: int|
                0 <= m < nul_entries(s, i)[k].len() ==> nul_entries(s, i)[k][m] != '\0' by {
                if k > 0 {
                    assert(nul_entries(s, i)[k] == rest[k - 1]);
                }
            }
        }
    }
}

// ---------------------------------------------------------------------------
// One descriptor
// ---------------------------------------------------------------------------

/// The name of a descriptor whose builder is `has_builder`: its text, which
/// must be readable and not empty, then a builder must be present.
pub open spec fn descriptor_name_of(len: usize, bytes: Option<Seq<u8>>, has_builder: bool) -> Result<
    Seq<char>,
    DescriptorError,
> {
    match field_text(len, bytes) {
        Err(e) => Err(e),
        Ok(name) => if name.len() == 0 {
            Err(DescriptorError::EmptyName)
        } else if !has_builder {
            Err(DescriptorError::NullBuilder)
        } else {
            Ok(name)
        },
    }
}

/// Reads and checks a descriptor's name, before its language is built.
pub fn descriptor_name(len: usize, bytes: Option<&[u8]>, has_builder: bool) -> (r: Result<
    &str,
    DescriptorError,
>)
    requires
        bytes matches Some(b) ==> b@.len() == len,
    ensures
        match r {
            Ok(name) => descriptor_name_of(len, slice_view(bytes), has_builder) == Ok::<
                Seq<char>,
                DescriptorError,
            >(name@),
            Err(e) => descriptor_name_of(len, slice_view(bytes), has_builder) == Err::<
                Seq<char>,
                DescriptorError,
            >(e),
        },
{
    let name = match text(len, bytes) {
        Ok(name) => name,
        Err(e) => return Err(e),
    };
    match check_descriptor(name, has_builder) {
        Ok(()) => Ok(name),
        Err(e) => Err(e),
    }
}

/// One string field of a descriptor: its length and, when its pointer is not
/// null, its bytes.
pub struct RawField<'a> {
    pub len: usize,
    pub bytes: Option<&'a [u8]>,
}

/// Whether a field's bytes, when present, have its length.
pub open spec fn well_sized(f: RawField) -> bool {
    f.bytes matches Some(b) ==> b@.len() == f.len
}

/// The text of a field.
pub open spec fn field_of(f: RawField) -> Result<Seq<char>, DescriptorError> {
    field_text(f.len, slice_view(f.bytes))
}

/// The fields of a descriptor read after its language is built.
pub struct DescriptorFields<'a> {
    pub aliases: Vec<String>,
    pub injection_languages: Vec<String>,
    pub highlights: &'a str,
    pub injections: &'a str,
    pub locals: &'a str,
}

/// Whether `v` holds exactly the texts `t`.
pub open spec fn holds_texts(v: Seq<String>, t: Seq<Seq<char>>) -> bool {
    v.len() == t.len() && forall|k: int| 0 <= k < v.len() ==> #[trigger] v[k]@ == t[k]
}

/// Reads the rest of a descriptor in order: the alias list, the injection
/// list, then the highlights, injections and locals queries. The first field
/// that cannot be read decides the error.
pub fn read_fields<'a>(
    aliases: RawField<'a>,
    injection_languages: RawField<'a>,
    highlights: RawField<'a>,
    injections: RawField<'a>,
    locals: RawField<'a>,
) -> (r: Result<DescriptorFields<'a>, DescriptorError>)
    requires
        well_sized(aliases),
        well_sized(injection_languages),
        well_sized(highlights),
        well_sized(injections),
        well_sized(locals),
    ensures
        match (
            field_of(aliases),
            field_of(injection_languages),
            field_of(highlights),
            field_of(injections),
            field_of(locals),
        ) {
            (Err(e), _, _, _, _) => r matches Err(x) && x == e,
            (Ok(_), Err(e), _, _, _) => r matches Err(x) && x == e,
            (Ok(_), Ok(_), Err(e), _, _) => r matches Err(x) && x == e,
            (Ok(_), Ok(_), Ok(_), Err(e), _) => r matches Err(x) && x == e,
            (Ok(_), Ok(_), Ok(_), Ok(_), Err(e)) => r matches Err(x) && x == e,
            (Ok(a), Ok(i), Ok(h), Ok(j), Ok(l)) => r matches Ok(f) && holds_texts(
                f.aliases@,
                nul_entries(a, 0),
            ) && holds_texts(f.injection_languages@, nul_entries(i, 0)) && f.highlights@ == h
                && f.injections@ == j && f.locals@ == l,
        },
{
    let aliases = match list(aliases.len, aliases.bytes) {
        Ok(v) => v,
        Err(e) => return Err(e),
    };
    let injection_languages = match list(injection_languages.len, injection_languages.bytes) {
        Ok(v) => v,
        Err(e) => return Err(e),
    };
    let highlights = match text(highlights.len, highlights.bytes) {
        Ok(t) => t,
        Err(e) => return Err(e),
    };
    let injections = match text(injections.len, injections.bytes) {
        Ok(t) => t,
        Err(e) => return Err(e),
    };
    let locals = match text(locals.len, locals.bytes) {
        Ok(t) => t,
        Err(e) => return Err(e),
    };
    Ok(DescriptorFields { aliases, injection_languages, highlights, injections, locals })
}

// ---------------------------------------------------------------------------
// Reading a bundle
// ---------------------------------------------------------------------------

/// How far reading a bundle has come.
#[derive(Debug, Clone, Copy, PartialEq, Eq, Structural)]
pub enum BundleProgress {
    /// The ABI version is to be read.
    AwaitingAbi,
    /// The layout matched; the language count is to be read.
    AwaitingCount,
    /// Descriptor `index` of `count` is to be read.
    Reading { index: u32, count: u32 },
    /// All `count` descriptors were read.
    Loaded { count: u32 },
    /// Reading stopped with this refusal.
    Failed(BundleError),
}

/// The export to call next.
#[derive(Debug, Clone, Copy, PartialEq, Eq, Structural)]
pub enum BundleCall {
    /// `nmt_tree_sitter_abi_version()`.
    AbiVersion,
    /// `nmt_tree_sitter_language_count()`.
    LanguageCount,
    /// `nmt_tree_sitter_language(index)`, followed by the descriptor checks.
    Language(u32),
    /// Nothing more is called.
    Stop,
}

/// What the last call reported.
#[derive(Debug, Clone, Copy, PartialEq, Eq, Structural)]
pub enum BundleAnswer {
    /// The ABI version export returned this.
    AbiVersion(u32),
    /// The language count export returned this.
    LanguageCount(u32),
    /// The language export refused the index.
    LanguageRejected,
    /// The language export described a language that failed its checks.
    LanguageInvalid,
    /// The language export described a valid language.
    LanguageRead,
}

/// The export a bundle read in state `p` calls next.
pub open spec fn next_call_of(p: BundleProgress) -> BundleCall {
    match p {
        BundleProgress::AwaitingAbi => BundleCall::AbiVersion,
        BundleProgress::AwaitingCount => BundleCall::LanguageCount,
        BundleProgress::Reading { index, .. } => BundleCall::Language(index),
        _ => BundleCall::Stop,
    }
}

/// Whether `a` answers the call state `p` makes.
pub open spec fn answers(p: BundleProgress, a: BundleAnswer) -> bool {
    match p {
        BundleProgress::AwaitingAbi => a is AbiVersion,
        BundleProgress::AwaitingCount => a is LanguageCount,
        BundleProgress::Reading { .. } => a is LanguageRejected || a is LanguageInvalid
            || a is LanguageRead,
        _ => false,
    }
}

/// The state after answer `a` in state `p`: a mismatched layout or an
/// oversized count stops before any descriptor is read; descriptors are read
/// from index 0 upward until one fails or all are read.
pub open spec fn bundle_next(p: BundleProgress, a: BundleAnswer) -> BundleProgress {
    match (p, a) {
        (BundleProgress::AwaitingAbi, BundleAnswer::AbiVersion(v)) => if v != ABI_VERSION {
            BundleProgress::Failed(BundleError::AbiMismatch(v))
        } else {
            BundleProgress::AwaitingCount
        },
        (BundleProgress::AwaitingCount, BundleAnswer::LanguageCount(c)) => if c > MAX_LANGUAGES {
            BundleProgress::Failed(BundleError::TooManyLanguages(c))
        } else if c == 0 {
            BundleProgress::Loaded { count: 0 }
        } else {
            BundleProgress::Reading { index: 0, count: c }
        },
        (BundleProgress::Reading { index, count }, BundleAnswer::LanguageRejected) =>
            BundleProgress::Failed(BundleError::Rejected(index)),
        (BundleProgress::Reading { index, count }, BundleAnswer::LanguageInvalid) =>
            BundleProgress::Failed(BundleError::InvalidLanguage(index)),
        (BundleProgress::Reading { index, count }, BundleAnswer::LanguageRead) => if index + 1
            >= count {
            BundleProgress::Loaded { count }
        } else {
            BundleProgress::Reading { index: (index + 1) as u32, count }
        },
        _ => p,
    }
}

/// Whether `p` is a state reading starts from or reaches.
pub open spec fn reachable(p: BundleProgress) -> bool {
    match p {
        BundleProgress::Reading { index, count } => index < count <= MAX_LANGUAGES,
        BundleProgress::Loaded { count } => count <= MAX_LANGUAGES,
        _ => true,
    }
}

/// The export to call next.
pub fn next_call(p: BundleProgress) -> (r: BundleCall)
    ensures
        r == next_call_of(p),
{
    match p {
        BundleProgress::AwaitingAbi => BundleCall::AbiVersion,
        BundleProgress::AwaitingCount => BundleCall::LanguageCount,
        BundleProgress::Reading { index, .. } => BundleCall::Language(index),
        _ => BundleCall::Stop,
    }
}

/// Advances a bundle read by the answer to the call `next_call` asked for.
pub fn bundle_step(p: BundleProgress, a: BundleAnswer) -> (r: BundleProgress)
    requires
        reachable(p),
        answers(p, a),
    ensures
        r == bundle_next(p, a),
        reachable(r),
{
    match (p, a) {
        (BundleProgress::AwaitingAbi, BundleAnswer::AbiVersion(v)) => match check_abi_version(v) {
            Ok(()) => BundleProgress::AwaitingCount,
            Err(e) => BundleProgress::Failed(e),
        },
        (BundleProgress::AwaitingCount, BundleAnswer::LanguageCount(c)) => match check_language_count(c) {
            Ok(0) => BundleProgress::Loaded { count: 0 },
            Ok(count) => BundleProgress::Reading { index: 0, count },
            Err(e) => BundleProgress::Failed(e),
        },
        (BundleProgress::Reading { index, count }, BundleAnswer::LanguageRejected) =>
            BundleProgress::Failed(BundleError::Rejected(index)),
        (BundleProgress::Reading { index, count }, BundleAnswer::LanguageInvalid) =>
            BundleProgress::Failed(BundleError::InvalidLanguage(index)),
        (BundleProgress::Reading { index, count }, BundleAnswer::LanguageRead) => if index + 1
            >= count {
            BundleProgress::Loaded { count }
        } else {
            BundleProgress::Reading { index: index + 1, count }
        },
        _ => p,
    }
}

/// A bundle of another layout is refused after its version alone: the next
/// call is none, so neither the count nor any descriptor is read.
pub proof fn lemma_mismatch_reads_nothing_more(v: u32)
    requires
        v != ABI_VERSION,
    ensures
        bundle_next(BundleProgress::AwaitingAbi, BundleAnswer::AbiVersion(v))
            == BundleProgress::Failed(BundleError::AbiMismatch(v)),
        next_call_of(bundle_next(BundleProgress::AwaitingAbi, BundleAnswer::AbiVersion(v)))
            == BundleCall::Stop,
{
}

/// An oversized count is refused before any descriptor is read; a count of
/// at most the limit starts reading at index 0.
pub proof fn lemma_count_decides_reading(c: u32)
    ensures
        c > MAX_LANGUAGES ==> next_call_of(
            bundle_next(BundleProgress::AwaitingCount, BundleAnswer::LanguageCount(c)),
        ) == BundleCall::Stop,
        0 < c <= MAX_LANGUAGES ==> next_call_of(
            bundle_next(BundleProgress::AwaitingCount, BundleAnswer::LanguageCount(c)),
        ) == BundleCall::Language(0),
{
}

/// Descriptors are read in index order: a read descriptor leads to the next
/// index or, after the last, to a loaded bundle of `count` languages; a failed
/// one stops reading.
pub proof fn lemma_descriptors_in_order(index: u32, count: u32)
    requires
        index < count <= MAX_LANGUAGES,
    ensures
        next_call_of(
            bundle_next((BundleProgress::Reading { index, count }), BundleAnswer::LanguageRead),
        ) == if index + 1 < count {
            BundleCall::Language((index + 1) as u32)
        } else {
            BundleCall::Stop
        },
        index + 1 == count ==> bundle_next(
            (BundleProgress::Reading { index, count }),
            BundleAnswer::LanguageRead,
        ) == (BundleProgress::Loaded { count }),
        next_call_of(
            bundle_next((BundleProgress::Reading { index, count }), BundleAnswer::LanguageRejected),
        ) == BundleCall::Stop,
        next_call_of(
            bundle_next((BundleProgress::Reading { index, count }), BundleAnswer::LanguageInvalid),
        ) == BundleCall::Stop,
{
}

} // verus!
