//! The database on disk: the versions of its schema, and the column that holds
//! whole events.

use vstd::prelude::*;
use vstd::string::*;
use vstd::utf8::*;

use crate::codec::read_json;
use crate::event::{StoreError, StoreErrorView};
use crate::json::{Json, JsonView};
use crate::text::join2;

verus! {

/// The version of the schema that the store reads and writes.
pub const SCHEMA_VERSION: i64 = 3;

/// Whether a database of a version still has to take the migration to version
/// `n`. A database of a newer version than this one takes none.
pub open spec fn is_due(version: i64, n: i64) -> bool {
    1 <= n <= SCHEMA_VERSION && version < n
}

/// The migrations that bring a database of a version up to date, in the order in
/// which they have to be taken.
pub fn pending_migrations(version: i64) -> (r: Vec<i64>)
    ensures
        forall|n: i64| #[trigger] r@.contains(n) <==> is_due(version, n),
        forall|i: int, j: int| 0 <= i < j < r@.len() ==> #[trigger] r@[i] < #[trigger] r@[j],
{
    let mut out: Vec<i64> = Vec::new();
    let mut n: i64 = 1;
    while n <= SCHEMA_VERSION
        invariant
            1 <= n <= SCHEMA_VERSION + 1,
            forall|k: i64| #[trigger] out@.contains(k) <==> k < n && is_due(version, k),
            forall|i: int, j: int|
                0 <= i < j < out@.len() ==> #[trigger] out@[i] < #[trigger] out@[j],
        decreases SCHEMA_VERSION + 1 - n,
    {
        let ghost before = out@;
        if version < n {
            assert forall|i: int| 0 <= i < before.len() implies #[trigger] before[i] < n by {
                assert(before.contains(before[i]));
            }
            out.push(n);
            assert forall|k: i64| #[trigger] out@.contains(k) <==> k < n + 1 && is_due(
                version,
                k,
            ) by {
                if before.contains(k) {
                    let i = choose|i: int| 0 <= i < before.len() && before[i] == k;
                    assert(out@[i] == k);
                }
                if k == n {
                    assert(out@[before.len() as int] == n);
                }
            }
        }
        n += 1;
    }
    out
}

/// The event that the payload column of a row holds.
pub open spec fn payload_of(text: Seq<char>) -> Result<JsonView, StoreErrorView> {
    match crate::codec::json_parse(encode_utf8(text)) {
        Ok(v) => Ok(v),
        Err(why) => Err(StoreErrorView::Malformed("corrupt stored event payload: "@ + why)),
    }
}

/// Reads the payload column of a row.
pub fn read_payload(text: &str) -> (r: Result<Json, StoreError>)
    ensures
        match r {
            Ok(j) => payload_of(text@) == Ok::<JsonView, StoreErrorView>(j@),
            Err(e) => payload_of(text@) == Err::<JsonView, StoreErrorView>(e@),
        },
{
    let bytes = text.as_bytes_vec();
    match read_json(bytes.as_slice()) {
        Ok(j) => Ok(j),
        Err(why) => Err(
            StoreError::Malformed { reason: join2("corrupt stored event payload: ", why.as_str()) },
        ),
    }
}

/// A database that has taken its migrations has none left to take.
pub proof fn migrating_settles(n: i64)
    ensures
        !is_due(SCHEMA_VERSION, n),
{
}

/// The migrations that are due are those to each version above the one that a database
/// has, up to the current one: none that it needs is left out, and none that it took is
/// taken again.
pub proof fn due_migrations_are_those_not_taken(version: i64, n: i64)
    ensures
        version < n && 1 <= n <= SCHEMA_VERSION ==> is_due(version, n),
        n <= version ==> !is_due(version, n),
        n > SCHEMA_VERSION || n < 1 ==> !is_due(version, n),
{
}

/// The event of a row is what its payload column says; a column that is no JSON is
/// malformed, and the complaint says why.
pub proof fn payload_is_what_the_column_says(text: Seq<char>)
    ensures
        crate::codec::json_parse(encode_utf8(text)) matches Ok(v) ==> payload_of(text) == Ok::<
            JsonView,
            StoreErrorView,
        >(v),
        crate::codec::json_parse(encode_utf8(text)) matches Err(why) ==> payload_of(text) == Err::<
            JsonView,
            StoreErrorView,
        >(StoreErrorView::Malformed("corrupt stored event payload: "@ + why)),
{
}

} // verus!
