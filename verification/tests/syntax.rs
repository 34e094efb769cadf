use nmt_platform::syntax::{
    bundle_step, check_abi_version, check_descriptor, check_language_count, descriptor_name, list,
    next_call, read_fields, split_entries, text, BundleAnswer, BundleCall, BundleError,
    BundleProgress, DescriptorError, RawField, ABI_VERSION, MAX_LANGUAGES,
};

#[test]
fn bundles_are_checked_for_layout_and_count() {
    assert_eq!(check_abi_version(ABI_VERSION), Ok(()));
    assert_eq!(check_abi_version(2), Err(BundleError::AbiMismatch(2)));
    assert_eq!(check_abi_version(0), Err(BundleError::AbiMismatch(0)));
    assert_eq!(check_language_count(12), Ok(12));
    assert_eq!(check_language_count(MAX_LANGUAGES), Ok(128));
    assert_eq!(check_language_count(129), Err(BundleError::TooManyLanguages(129)));
}

#[test]
fn descriptor_strings_are_read_as_utf8() {
    assert_eq!(text(0, None), Ok(""));
    assert_eq!(text(3, None), Err(DescriptorError::NullText));
    assert_eq!(text(4, Some("rust".as_bytes())), Ok("rust"));
    assert_eq!(text(2, Some(&[0xc3, 0xa9])), Ok("é"));
    assert_eq!(text(2, Some(&[0xc3, 0x28])), Err(DescriptorError::NotUtf8));
}

#[test]
fn lists_drop_empty_entries() {
    assert_eq!(split_entries("rs\0\0rust\0"), ["rs", "rust"]);
    assert!(split_entries("").is_empty());
    assert!(split_entries("\0\0").is_empty());
    assert_eq!(split_entries("js"), ["js"]);
    let raw = "ts\0tsx";
    assert_eq!(list(raw.len(), Some(raw.as_bytes())), Ok(vec![String::from("ts"), String::from("tsx")]));
    assert_eq!(list(0, None), Ok(Vec::new()));
    assert_eq!(list(1, None), Err(DescriptorError::NullText));
}

#[test]
fn descriptors_need_a_name_and_a_builder() {
    assert_eq!(check_descriptor("rust", true), Ok(()));
    assert_eq!(check_descriptor("", true), Err(DescriptorError::EmptyName));
    assert_eq!(check_descriptor("", false), Err(DescriptorError::EmptyName));
    assert_eq!(check_descriptor("rust", false), Err(DescriptorError::NullBuilder));
}

fn field(text: &str) -> RawField<'_> {
    RawField {
        len: text.len(),
        bytes: if text.is_empty() { None } else { Some(text.as_bytes()) },
    }
}

fn null(len: usize) -> RawField<'static> {
    RawField { len, bytes: None }
}

#[test]
fn descriptor_refusals_read_as_sentences() {
    assert_eq!(DescriptorError::NullText.message(), "null string pointer with non-zero length");
    assert_eq!(DescriptorError::NotUtf8.message(), "language data is not UTF-8");
    assert_eq!(DescriptorError::EmptyName.message(), "empty language name");
    assert_eq!(DescriptorError::NullBuilder.message(), "null language builder");
}

#[test]
fn bundle_refusals_name_the_bundle() {
    let path = "/opt/nmt/libtree_sitter.so";
    assert_eq!(
        BundleError::AbiMismatch(3).message(path),
        "/opt/nmt/libtree_sitter.so uses ABI version 3, expected 1"
    );
    assert_eq!(
        BundleError::TooManyLanguages(129).message(path),
        "/opt/nmt/libtree_sitter.so reports an invalid language count of 129"
    );
    assert_eq!(
        BundleError::Rejected(4).message(path),
        "/opt/nmt/libtree_sitter.so rejected language index 4"
    );
    assert_eq!(
        BundleError::InvalidLanguage(0).message(path),
        "/opt/nmt/libtree_sitter.so returned an invalid language at index 0"
    );
}

#[test]
fn an_all_empty_descriptor_has_no_name() {
    let error = descriptor_name(0, None, false).unwrap_err();
    assert_eq!(error, DescriptorError::EmptyName);
    assert_eq!(error.message(), "empty language name");
    assert_eq!(descriptor_name(4, Some("rust".as_bytes()), false), Err(DescriptorError::NullBuilder));
    assert_eq!(descriptor_name(4, Some("rust".as_bytes()), true), Ok("rust"));
    assert_eq!(descriptor_name(4, None, true), Err(DescriptorError::NullText));
}

#[test]
fn descriptor_fields_are_read_in_order() {
    let fields = read_fields(
        field("rs\0rust"),
        field("doc"),
        field("(identifier) @variable"),
        field(""),
        field("(block) @local.scope"),
    )
    .expect("every field is readable");
    assert_eq!(fields.aliases, ["rs", "rust"]);
    assert_eq!(fields.injection_languages, ["doc"]);
    assert_eq!(fields.highlights, "(identifier) @variable");
    assert_eq!(fields.injections, "");
    assert_eq!(fields.locals, "(block) @local.scope");

    let bad: &[u8] = &[0xff];
    let not_utf8 = RawField { len: 1, bytes: Some(bad) };
    assert!(matches!(
        read_fields(field("rs"), null(2), not_utf8, field(""), field("")),
        Err(DescriptorError::NullText)
    ));
    let not_utf8 = RawField { len: 1, bytes: Some(bad) };
    assert!(matches!(
        read_fields(field("rs"), field(""), field(""), not_utf8, null(3)),
        Err(DescriptorError::NotUtf8)
    ));
}

#[test]
fn a_mismatched_bundle_is_never_asked_for_its_count() {
    let start = BundleProgress::AwaitingAbi;
    assert_eq!(next_call(start), BundleCall::AbiVersion);
    let failed = bundle_step(start, BundleAnswer::AbiVersion(2));
    assert_eq!(failed, BundleProgress::Failed(BundleError::AbiMismatch(2)));
    assert_eq!(next_call(failed), BundleCall::Stop);
}

#[test]
fn descriptors_are_read_in_order_until_one_fails() {
    let mut progress = bundle_step(BundleProgress::AwaitingAbi, BundleAnswer::AbiVersion(1));
    assert_eq!(next_call(progress), BundleCall::LanguageCount);
    progress = bundle_step(progress, BundleAnswer::LanguageCount(3));
    assert_eq!(next_call(progress), BundleCall::Language(0));
    progress = bundle_step(progress, BundleAnswer::LanguageRead);
    assert_eq!(next_call(progress), BundleCall::Language(1));
    let stopped = bundle_step(progress, BundleAnswer::LanguageInvalid);
    assert_eq!(stopped, BundleProgress::Failed(BundleError::InvalidLanguage(1)));
    assert_eq!(next_call(stopped), BundleCall::Stop);
    progress = bundle_step(progress, BundleAnswer::LanguageRead);
    progress = bundle_step(progress, BundleAnswer::LanguageRead);
    assert_eq!(progress, BundleProgress::Loaded { count: 3 });
    assert_eq!(
        bundle_step(BundleProgress::Reading { index: 0, count: 2 }, BundleAnswer::LanguageRejected),
        BundleProgress::Failed(BundleError::Rejected(0))
    );
}

#[test]
fn the_count_limit_is_inclusive() {
    let counting = BundleProgress::AwaitingCount;
    assert_eq!(
        bundle_step(counting, BundleAnswer::LanguageCount(128)),
        BundleProgress::Reading { index: 0, count: 128 }
    );
    assert_eq!(
        bundle_step(counting, BundleAnswer::LanguageCount(129)),
        BundleProgress::Failed(BundleError::TooManyLanguages(129))
    );
    assert_eq!(
        bundle_step(counting, BundleAnswer::LanguageCount(0)),
        BundleProgress::Loaded { count: 0 }
    );
}
