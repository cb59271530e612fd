//! The repository descriptor and the owner scope.

use vstd::prelude::*;

use crate::errors::BackupError;

verus! {

/// The metadata record standing for one repository to back up. Constructed
/// fresh per listing page, immutable afterwards.
#[derive(Debug)]
pub struct Repo {
    /// Short identifier, unique within the owner's scope.
    pub name: String,
    /// Owner-qualified identifier, used for reporting.
    pub full_name: String,
    /// Last-update timestamp in extended ISO-8601 form; only the date part
    /// before the `T` is consumed.
    pub updated_at: String,
    /// The branch whose tip is archived.
    pub default_branch: String,
}

impl Repo {
    /// A descriptor returned by a successful list call always carries a
    /// non-empty name and a non-empty default branch.
    pub open spec fn wf(self) -> bool {
        self.name@.len() > 0 && self.default_branch@.len() > 0
    }

    /// Boundary constructor: accepts exactly the field values that satisfy
    /// the descriptor invariant, and reports a decode error otherwise.
    pub fn new(name: String, full_name: String, updated_at: String, default_branch: String) -> (r:
        Result<Repo, BackupError>)
        ensures
            match r {
                Ok(rep) => {
                    &&& rep.wf()
                    &&& rep.name == name
                    &&& rep.full_name == full_name
                    &&& rep.updated_at == updated_at
                    &&& rep.default_branch == default_branch
                },
                Err(e) => {
                    &&& name@.len() == 0 || default_branch@.len() == 0
                    &&& e == BackupError::Decode
                },
            },
    {
        if name.as_str().is_empty() || default_branch.as_str().is_empty() {
            Err(BackupError::Decode)
        } else {
            Ok(Repo { name, full_name, updated_at, default_branch })
        }
    }
}

/// The two scopes a listing can run under.
#[derive(Debug, Clone, Copy, PartialEq, Eq, Structural)]
pub enum OwnerType {
    /// A personal account.
    User,
    /// An organization account.
    Organization,
}

/// Decides the scope once at the boundary: the literal `org` selects the
/// organization-scoped endpoint; any other value defaults to the user scope.
pub fn parse_owner_type(s: &str) -> (t: OwnerType)
    ensures
        t == (if s@ == "org"@ {
            OwnerType::Organization
        } else {
            OwnerType::User
        }),
{
    proof {
        reveal_strlit("org");
    }
    let n = s.unicode_len();
    if n == 3 && s.get_char(0) == 'o' && s.get_char(1) == 'r' && s.get_char(2) == 'g' {
        proof {
            assert(s@ =~= "org"@);
        }
        OwnerType::Organization
    } else {
        OwnerType::User
    }
}

} // verus!
