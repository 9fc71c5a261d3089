//! The closed set of failure kinds, with the two fixed strings of each.

use vstd::prelude::*;

verus! {

/// A failure category recognised by the service.
#[derive(Clone, Copy, Debug, PartialEq, Eq, Structural)]
pub enum BucketsMdapiErrorType {
    BucketAlreadyExists,
    BucketNotFound,
    ObjectNotFound,
    PostgresError,
    LimitConstraintError,
    PreconditionFailedError,
}

impl BucketsMdapiErrorType {
    /// The stable identifier by which clients match on the kind.
    pub open spec fn canonical_name(self) -> Seq<char> {
        match self {
            BucketsMdapiErrorType::BucketAlreadyExists => "BucketAlreadyExists"@,
            BucketsMdapiErrorType::BucketNotFound => "BucketNotFound"@,
            BucketsMdapiErrorType::ObjectNotFound => "ObjectNotFound"@,
            BucketsMdapiErrorType::PostgresError => "PostgresError"@,
            BucketsMdapiErrorType::LimitConstraintError => "LimitConstraintError"@,
            BucketsMdapiErrorType::PreconditionFailedError => "PreconditionFailedError"@,
        }
    }

    /// The sentence that describes the kind when the caller supplies none.
    pub open spec fn default_message(self) -> Seq<char> {
        match self {
            BucketsMdapiErrorType::BucketAlreadyExists => "requested bucket already exists"@,
            BucketsMdapiErrorType::BucketNotFound => "requested bucket not found"@,
            BucketsMdapiErrorType::ObjectNotFound => "requested object not found"@,
            BucketsMdapiErrorType::PostgresError => "postgres encountered an error"@,
            BucketsMdapiErrorType::LimitConstraintError => "a limit constraint was violated"@,
            BucketsMdapiErrorType::PreconditionFailedError => "precondition failed"@,
        }
    }

    /// Returns the canonical name of the kind.
    pub fn to_string(&self) -> (name: String)
        ensures
            name@ == self.canonical_name(),
    {
        match *self {
            BucketsMdapiErrorType::BucketAlreadyExists => "BucketAlreadyExists".to_owned(),
            BucketsMdapiErrorType::BucketNotFound => "BucketNotFound".to_owned(),
            BucketsMdapiErrorType::ObjectNotFound => "ObjectNotFound".to_owned(),
            BucketsMdapiErrorType::PostgresError => "PostgresError".to_owned(),
            BucketsMdapiErrorType::LimitConstraintError => "LimitConstraintError".to_owned(),
            BucketsMdapiErrorType::PreconditionFailedError => "PreconditionFailedError".to_owned(),
        }
    }

    /// Finds the kind that goes by `name`; there is none unless `name` is
    /// one of the six canonical names, letter for letter.
    pub fn from_name(name: &str) -> (kind: Option<Self>)
        ensures
            match kind {
                Some(k) => k.canonical_name() == name@,
                None => forall|k: Self| #[trigger] k.canonical_name() != name@,
            },
    {
        let name: String = name.to_owned();
        if name == BucketsMdapiErrorType::BucketAlreadyExists.to_string() {
            Some(BucketsMdapiErrorType::BucketAlreadyExists)
        } else if name == BucketsMdapiErrorType::BucketNotFound.to_string() {
            Some(BucketsMdapiErrorType::BucketNotFound)
        } else if name == BucketsMdapiErrorType::ObjectNotFound.to_string() {
            Some(BucketsMdapiErrorType::ObjectNotFound)
        } else if name == BucketsMdapiErrorType::PostgresError.to_string() {
            Some(BucketsMdapiErrorType::PostgresError)
        } else if name == BucketsMdapiErrorType::LimitConstraintError.to_string() {
            Some(BucketsMdapiErrorType::LimitConstraintError)
        } else if name == BucketsMdapiErrorType::PreconditionFailedError.to_string() {
            Some(BucketsMdapiErrorType::PreconditionFailedError)
        } else {
            None
        }
    }

    /// Returns the default message of the kind.
    pub fn message(self) -> (text: String)
        ensures
            text@ == self.default_message(),
    {
        match self {
            BucketsMdapiErrorType::BucketAlreadyExists => "requested bucket already exists".to_owned(),
            BucketsMdapiErrorType::BucketNotFound => "requested bucket not found".to_owned(),
            BucketsMdapiErrorType::ObjectNotFound => "requested object not found".to_owned(),
            BucketsMdapiErrorType::PostgresError => "postgres encountered an error".to_owned(),
            BucketsMdapiErrorType::LimitConstraintError => "a limit constraint was violated".to_owned(),
            BucketsMdapiErrorType::PreconditionFailedError => "precondition failed".to_owned(),
        }
    }
}

/// Every canonical name has at least one character.
pub proof fn lemma_canonical_name_nonempty(kind: BucketsMdapiErrorType)
    ensures
        kind.canonical_name().len() > 0,
{
    reveal_canonical_names();
}

/// Two kinds with the same canonical name are the same kind: the six names
/// are pairwise distinct.
pub proof fn lemma_canonical_name_injective(a: BucketsMdapiErrorType, b: BucketsMdapiErrorType)
    ensures
        a.canonical_name() == b.canonical_name() <==> a == b,
{
    reveal_canonical_names();
    if a != b && a.canonical_name() == b.canonical_name() {
        // Only two names have the same length, and they differ at once.
        assert(a.canonical_name()[0] == b.canonical_name()[0]);
    }
}

/// Every default message has at least one character.
pub proof fn lemma_default_message_nonempty(kind: BucketsMdapiErrorType)
    ensures
        kind.default_message().len() > 0,
{
    reveal_strlit("requested bucket already exists");
    reveal_strlit("requested bucket not found");
    reveal_strlit("requested object not found");
    reveal_strlit("postgres encountered an error");
    reveal_strlit("a limit constraint was violated");
    reveal_strlit("precondition failed");
}

/// Makes the characters of the six canonical names known.
pub proof fn reveal_canonical_names()
    ensures
        "BucketAlreadyExists"@ =~= seq![
            'B', 'u', 'c', 'k', 'e', 't', 'A', 'l', 'r', 'e', 'a', 'd', 'y', 'E', 'x', 'i', 's',
            't', 's',
        ],
        "BucketNotFound"@ =~= seq![
            'B', 'u', 'c', 'k', 'e', 't', 'N', 'o', 't', 'F', 'o', 'u', 'n', 'd',
        ],
        "ObjectNotFound"@ =~= seq![
            'O', 'b', 'j', 'e', 'c', 't', 'N', 'o', 't', 'F', 'o', 'u', 'n', 'd',
        ],
        "PostgresError"@ =~= seq!['P', 'o', 's', 't', 'g', 'r', 'e', 's', 'E', 'r', 'r', 'o', 'r'],
        "LimitConstraintError"@ =~= seq![
            'L', 'i', 'm', 'i', 't', 'C', 'o', 'n', 's', 't', 'r', 'a', 'i', 'n', 't', 'E', 'r',
            'r', 'o', 'r',
        ],
        "PreconditionFailedError"@ =~= seq![
            'P', 'r', 'e', 'c', 'o', 'n', 'd', 'i', 't', 'i', 'o', 'n', 'F', 'a', 'i', 'l', 'e',
            'd', 'E', 'r', 'r', 'o', 'r',
        ],
{
    reveal_strlit("BucketAlreadyExists");
    reveal_strlit("BucketNotFound");
    reveal_strlit("ObjectNotFound");
    reveal_strlit("PostgresError");
    reveal_strlit("LimitConstraintError");
    reveal_strlit("PreconditionFailedError");
}

} // verus!
