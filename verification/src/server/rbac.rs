//! Role-based access control. Roles: viewer < operator < admin.
use vstd::prelude::*;

use crate::text::{str_equal, to_string};

verus! {

/// The user of a request and their role.
#[derive(Clone, Debug)]
pub struct AuthUser {
    pub name: String,
    pub role: String,
}

/// The rank of a role: admin 3, operator 2, viewer 1, anything else 0.
pub open spec fn role_rank(role: Seq<char>) -> int {
    if role == "admin"@ {
        3
    } else if role == "operator"@ {
        2
    } else if role == "viewer"@ {
        1
    } else {
        0
    }
}

fn rank(role: &str) -> (res: u8)
    ensures
        res as int == role_rank(role@),
{
    if str_equal(role, "admin") {
        3
    } else if str_equal(role, "operator") {
        2
    } else if str_equal(role, "viewer") {
        1
    } else {
        0
    }
}

/// Role hierarchy check: does `actual` satisfy `required`?
pub fn role_allows(actual: &str, required: &str) -> (res: bool)
    ensures
        res == (role_rank(actual@) >= role_rank(required@)),
{
    rank(actual) >= rank(required)
}

/// Law: every role satisfies itself.
pub proof fn lemma_role_reflexive(role: Seq<char>)
    ensures
        role_rank(role) >= role_rank(role),
{
}

/// Law: a role that satisfies a second role satisfies whatever the second satisfies.
pub proof fn lemma_role_transitive(a: Seq<char>, b: Seq<char>, c: Seq<char>)
    requires
        role_rank(a) >= role_rank(b),
        role_rank(b) >= role_rank(c),
    ensures
        role_rank(a) >= role_rank(c),
{
}

/// Law: the three roles are ordered viewer < operator < admin, and a role that
/// is none of them satisfies only requirements that are none of them either.
pub proof fn lemma_role_order(other: Seq<char>)
    requires
        other != "admin"@,
        other != "operator"@,
        other != "viewer"@,
    ensures
        role_rank("admin"@) > role_rank("operator"@),
        role_rank("operator"@) > role_rank("viewer"@),
        role_rank("viewer"@) > role_rank(other),
{
    reveal_strlit("admin");
    reveal_strlit("operator");
    reveal_strlit("viewer");
    assert("admin"@ != "operator"@) by {
        assert("admin"@.len() != "operator"@.len());
    }
    assert("admin"@ != "viewer"@) by {
        assert("admin"@[0] != "viewer"@[0]);
    }
    assert("operator"@ != "viewer"@) by {
        assert("operator"@.len() != "viewer"@.len());
    }
}

/// The user of a request from its `X-Role` and `X-User` headers: role `viewer`
/// and name `anonymous` where a header is missing (or not text).
pub fn auth_user_from_headers(role: Option<&str>, user: Option<&str>) -> (res: AuthUser)
    ensures
        res.role@ == match role {
            Some(r) => r@,
            None => "viewer"@,
        },
        res.name@ == match user {
            Some(u) => u@,
            None => "anonymous"@,
        },
{
    let role = match role {
        Some(r) => to_string(r),
        None => to_string("viewer"),
    };
    let name = match user {
        Some(u) => to_string(u),
        None => to_string("anonymous"),
    };
    AuthUser { name, role }
}

} // verus!
