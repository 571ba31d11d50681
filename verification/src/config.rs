//! What the environment says: where the ledger lies, and whether there is a
//! Square token.

use vstd::prelude::*;

use crate::text;

verus! {

/// Where the ledger lies: where the environment says so, or else in the user's
/// home directory, or else in the current one.
pub open spec fn db_path_text(
    configured: Option<Seq<char>>,
    user_profile: Option<Seq<char>>,
    home: Option<Seq<char>>,
) -> Seq<char> {
    match configured {
        Some(path) => path,
        None => default_db_path_text(user_profile, home),
    }
}

/// Where the ledger lies unless told otherwise.
pub open spec fn default_db_path_text(
    user_profile: Option<Seq<char>>,
    home: Option<Seq<char>>,
) -> Seq<char> {
    (match (user_profile, home) {
        (Some(dir), _) => dir,
        (None, Some(dir)) => dir,
        (None, None) => "."@,
    }) + "/.edge-revenue/ledger.db"@
}

/// Where the ledger lies unless told otherwise, given `USERPROFILE` and `HOME`
/// as the environment has them.
pub fn default_db_path(user_profile: Option<String>, home: Option<String>) -> (r: String)
    ensures
        r@ == default_db_path_text(text::opt_text(user_profile), text::opt_text(home)),
{
    let mut out: String = match (user_profile, home) {
        (Some(dir), _) => dir,
        (None, Some(dir)) => dir,
        (None, None) => ".".to_string(),
    };
    out.append("/.edge-revenue/ledger.db");
    out
}

/// Where the ledger lies, given `EDGE_REVENUE_DB_PATH`, `USERPROFILE` and `HOME`
/// as the environment has them.
pub fn db_path(
    configured: Option<String>,
    user_profile: Option<String>,
    home: Option<String>,
) -> (r: String)
    ensures
        r@ == db_path_text(
            text::opt_text(configured),
            text::opt_text(user_profile),
            text::opt_text(home),
        ),
{
    match configured {
        Some(path) => path,
        None => default_db_path(user_profile, home),
    }
}

/// The Square token, given `SQUARE_ACCESS_TOKEN` as the environment has it: an
/// empty one counts as unset.
pub fn square_token(token: Option<String>) -> (r: Option<String>)
    ensures
        r == if token matches Some(t) && t@.len() > 0 {
            token
        } else {
            None
        },
{
    match token {
        Some(t) => if t.as_str().is_empty() {
            None
        } else {
            Some(t)
        },
        None => None,
    }
}

} // verus!
