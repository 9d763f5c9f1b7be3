//! Backend selection: a backend name plus a flat argument list becomes a
//! typed configuration descriptor, or a validation error naming what was
//! wrong. Each backend has an exact minimum argument count; extra arguments
//! are ignored.

use vstd::prelude::*;

verus! {

/// The three backend families the layer can be configured for.
#[derive(Clone, Copy, PartialEq, Eq, Structural, Debug)]
pub enum BackendKind {
    /// Fixed-schema tables over a parameterized query protocol.
    Relational,
    /// Self-describing nested documents, one collection per record kind.
    Document,
    /// A schemaless engine queried over an authenticated session.
    MultiModel,
}

/// A validated configuration descriptor: which backend to open and the
/// arguments its handshake needs.
#[derive(PartialEq, Eq, Debug)]
pub enum DbType {
    /// Connection string.
    Relational(String),
    /// Connection string and database name.
    Document(String, String),
    /// Endpoint, username and password.
    MultiModel(String, String, String),
}

/// Why a `(backend name, argument list)` pair was rejected.
#[derive(Clone, Copy, PartialEq, Eq, Structural, Debug)]
pub enum SelectorError {
    /// The name matches no backend family.
    UnknownBackend,
    /// The name is known but the argument list is shorter than that backend's
    /// minimum.
    NotEnoughArguments(BackendKind),
}

/// How many arguments a backend needs at minimum.
pub open spec fn required_args(kind: BackendKind) -> int {
    match kind {
        BackendKind::Relational => 1,
        BackendKind::Document => 2,
        BackendKind::MultiModel => 3,
    }
}

/// The backend family a name selects, if any.
pub open spec fn kind_of_name(name: Seq<char>) -> Option<BackendKind> {
    if name == "relational"@ {
        Some(BackendKind::Relational)
    } else if name == "document"@ {
        Some(BackendKind::Document)
    } else if name == "multimodel"@ {
        Some(BackendKind::MultiModel)
    } else {
        None
    }
}

/// Character-for-character equality of two string slices.
fn str_eq(a: &str, b: &str) -> (r: bool)
    ensures
        r <==> a@ == b@,
{
    let alen = a.unicode_len();
    let blen = b.unicode_len();
    if alen != blen {
        return false;
    }
    let mut i: usize = 0;
    while i < alen
        invariant
            alen == a@.len(),
            blen == b@.len(),
            alen == blen,
            i <= alen,
            forall|j: int| 0 <= j < i ==> a@[j] == b@[j],
        decreases alen - i,
    {
        if a.get_char(i) != b.get_char(i) {
            return false;
        }
        i += 1;
    }
    proof {
        assert(a@ =~= b@);
    }
    true
}

/// Validates a backend name and argument list and produces the configuration
/// descriptor for it.
///
/// A known name with at least its backend's minimum argument count succeeds,
/// and the descriptor carries the leading arguments in order; a known name
/// with too few arguments fails naming that backend; an unknown name fails as
/// unknown, whatever the arguments.
pub fn match_database_type(db_type: &str, args: &[String]) -> (r: Result<DbType, SelectorError>)
    ensures
        r is Ok <==> (kind_of_name(db_type@) matches Some(k) && args@.len() >= required_args(k)),
        db_type@ == "relational"@ && args@.len() >= 1 ==> (r matches Ok(d) && d matches DbType::Relational(conn) && conn@ == args@[0]@),
        db_type@ == "document"@ && args@.len() >= 2 ==> (r matches Ok(d) && d matches DbType::Document(uri, name) && uri@ == args@[0]@ && name@ == args@[1]@),
        db_type@ == "multimodel"@ && args@.len() >= 3 ==> (r matches Ok(d) && d matches DbType::MultiModel(url, user, pass) && url@ == args@[0]@ && user@ == args@[1]@ && pass@ == args@[2]@),
        kind_of_name(db_type@) matches Some(k) ==> (args@.len() < required_args(k) ==> r == Result::<DbType, SelectorError>::Err(SelectorError::NotEnoughArguments(k))),
        kind_of_name(db_type@) is None ==> r == Result::<DbType, SelectorError>::Err(SelectorError::UnknownBackend),
{
    proof {
        reveal_strlit("relational");
        reveal_strlit("document");
        reveal_strlit("multimodel");
        assert("relational"@.len() == 10);
        assert("document"@.len() == 8);
        assert("multimodel"@.len() == 10);
        assert("relational"@[0] == 'r');
        assert("multimodel"@[0] == 'm');
        assert("relational"@ != "document"@);
        assert("relational"@ != "multimodel"@);
        assert("document"@ != "multimodel"@);
    }
    if str_eq(db_type, "relational") {
        if args.len() >= 1 {
            Ok(DbType::Relational(args[0].clone()))
        } else {
            Err(SelectorError::NotEnoughArguments(BackendKind::Relational))
        }
    } else if str_eq(db_type, "document") {
        if args.len() >= 2 {
            Ok(DbType::Document(args[0].clone(), args[1].clone()))
        } else {
            Err(SelectorError::NotEnoughArguments(BackendKind::Document))
        }
    } else if str_eq(db_type, "multimodel") {
        if args.len() >= 3 {
            Ok(DbType::MultiModel(args[0].clone(), args[1].clone(), args[2].clone()))
        } else {
            Err(SelectorError::NotEnoughArguments(BackendKind::MultiModel))
        }
    } else {
        Err(SelectorError::UnknownBackend)
    }
}

} // verus!
