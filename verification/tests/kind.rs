use buckets_mdapi::kind::BucketsMdapiErrorType;

fn all_kinds() -> Vec<BucketsMdapiErrorType> {
    vec![
        BucketsMdapiErrorType::BucketAlreadyExists,
        BucketsMdapiErrorType::BucketNotFound,
        BucketsMdapiErrorType::ObjectNotFound,
        BucketsMdapiErrorType::PostgresError,
        BucketsMdapiErrorType::LimitConstraintError,
        BucketsMdapiErrorType::PreconditionFailedError,
    ]
}

#[test]
fn canonical_names_are_the_variant_identifiers() {
    assert_eq!(BucketsMdapiErrorType::BucketAlreadyExists.to_string(), "BucketAlreadyExists");
    assert_eq!(BucketsMdapiErrorType::BucketNotFound.to_string(), "BucketNotFound");
    assert_eq!(BucketsMdapiErrorType::ObjectNotFound.to_string(), "ObjectNotFound");
    assert_eq!(BucketsMdapiErrorType::PostgresError.to_string(), "PostgresError");
    assert_eq!(BucketsMdapiErrorType::LimitConstraintError.to_string(), "LimitConstraintError");
    assert_eq!(
        BucketsMdapiErrorType::PreconditionFailedError.to_string(),
        "PreconditionFailedError"
    );
}

#[test]
fn canonical_names_are_not_empty() {
    for kind in all_kinds() {
        assert!(!kind.to_string().is_empty());
    }
}

#[test]
fn canonical_names_are_pairwise_distinct() {
    let kinds = all_kinds();
    for (i, a) in kinds.iter().enumerate() {
        for (j, b) in kinds.iter().enumerate() {
            if i != j {
                assert_ne!(a.to_string(), b.to_string());
            }
        }
    }
}

#[test]
fn default_messages_are_the_fixed_sentences() {
    assert_eq!(
        BucketsMdapiErrorType::BucketAlreadyExists.message(),
        "requested bucket already exists"
    );
    assert_eq!(BucketsMdapiErrorType::BucketNotFound.message(), "requested bucket not found");
    assert_eq!(BucketsMdapiErrorType::ObjectNotFound.message(), "requested object not found");
    assert_eq!(BucketsMdapiErrorType::PostgresError.message(), "postgres encountered an error");
    assert_eq!(
        BucketsMdapiErrorType::LimitConstraintError.message(),
        "a limit constraint was violated"
    );
    assert_eq!(BucketsMdapiErrorType::PreconditionFailedError.message(), "precondition failed");
}

#[test]
fn default_messages_are_not_empty() {
    for kind in all_kinds() {
        assert!(!kind.message().is_empty());
    }
}

#[test]
fn from_name_finds_every_kind_by_its_name() {
    for kind in all_kinds() {
        assert_eq!(BucketsMdapiErrorType::from_name(&kind.to_string()), Some(kind));
    }
}

#[test]
fn from_name_knows_no_other_name() {
    assert_eq!(BucketsMdapiErrorType::from_name(""), None);
    assert_eq!(BucketsMdapiErrorType::from_name("bucketnotfound"), None);
    assert_eq!(BucketsMdapiErrorType::from_name("BucketNotFound "), None);
    assert_eq!(BucketsMdapiErrorType::from_name("BucketNotFoun"), None);
    assert_eq!(BucketsMdapiErrorType::from_name("requested bucket not found"), None);
    assert_eq!(BucketsMdapiErrorType::from_name("InternalError"), None);
}

#[test]
fn kinds_are_copied_by_value() {
    let kind = BucketsMdapiErrorType::ObjectNotFound;
    let copy = kind;
    assert_eq!(kind, copy);
    assert_eq!(kind.message(), copy.message());
}
