//! What the database client says and where it sends: the HTTP API's
//! endpoint for an account and database, and the error a failed batch
//! reports.
use vstd::prelude::*;
use crate::number::{signed_decimal, push_signed_decimal};
use crate::text::push_str;

verus! {

/// The query endpoint of one database.
pub fn endpoint(account: &str, database: &str) -> (r: String)
    ensures
        r@ == "https://api.cloudflare.com/client/v4/accounts/"@ + account@ + "/d1/database/"@ + database@
            + "/query"@,
{
    let mut r = String::new();
    push_str(&mut r, "https://api.cloudflare.com/client/v4/accounts/");
    push_str(&mut r, account);
    push_str(&mut r, "/d1/database/");
    push_str(&mut r, database);
    push_str(&mut r, "/query");
    r
}

/// The message for a missing setting.
pub fn not_set(var: &str) -> (r: String)
    ensures
        r@ == var@ + " is not set"@,
{
    let mut r = String::new();
    push_str(&mut r, var);
    push_str(&mut r, " is not set");
    r
}

/// One error from a failed batch.
#[derive(Debug)]
pub struct D1Error {
    pub code: i64,
    pub message: String,
}

/// One error as the failure message lists it.
pub open spec fn error_item(e: D1Error) -> Seq<char> {
    "["@ + signed_decimal(e.code as int) + "] "@ + e.message@
}

/// The errors, joined with `; `.
pub open spec fn joined(errors: Seq<D1Error>) -> Seq<char>
    decreases errors.len(),
{
    if errors.len() == 0 {
        Seq::empty()
    } else if errors.len() == 1 {
        error_item(errors[0])
    } else {
        joined(errors.drop_last()) + "; "@ + error_item(errors.last())
    }
}

/// Why a batch failed: every error the API gave, or `unknown error` when it
/// gave none.
pub open spec fn spec_failure_message(errors: Seq<D1Error>) -> Seq<char> {
    "D1 query failed: "@ + if joined(errors).len() == 0 { "unknown error"@ } else { joined(errors) }
}

proof fn lemma_joined_nonempty(errors: Seq<D1Error>)
    requires
        errors.len() > 0,
    ensures
        joined(errors).len() > 0,
    decreases errors.len(),
{
    reveal_strlit("[");
    if errors.len() > 1 {
        lemma_joined_nonempty(errors.drop_last());
    }
}

pub fn failure_message(errors: &[D1Error]) -> (r: String)
    ensures
        r@ == spec_failure_message(errors@),
{
    let mut msg = String::new();
    let mut i: usize = 0;
    proof { assert(errors@.take(0) =~= Seq::<D1Error>::empty()); }
    while i < errors.len()
        invariant
            i <= errors.len(),
            msg@ == joined(errors@.take(i as int)),
        decreases errors.len() - i,
    {
        proof {
            assert(errors@.take(i as int + 1).drop_last() =~= errors@.take(i as int));
            assert(errors@.take(i as int + 1).last() == errors@[i as int]);
        }
        let ghost before = msg@;
        if i > 0 {
            push_str(&mut msg, "; ");
        }
        push_str(&mut msg, "[");
        push_signed_decimal(&mut msg, errors[i].code);
        push_str(&mut msg, "] ");
        push_str(&mut msg, errors[i].message.as_str());
        proof {
            if i == 0 {
                assert(msg@ =~= error_item(errors@[0]));
            } else {
                assert(msg@ =~= before + "; "@ + error_item(errors@[i as int]));
            }
        }
        i = i + 1;
    }
    proof {
        assert(errors@.take(errors@.len() as int) =~= errors@);
        if errors@.len() > 0 { lemma_joined_nonempty(errors@); }
    }
    let mut r = String::new();
    push_str(&mut r, "D1 query failed: ");
    if msg.as_str().is_empty() {
        push_str(&mut r, "unknown error");
    } else {
        push_str(&mut r, msg.as_str());
    }
    r
}

} // verus!
