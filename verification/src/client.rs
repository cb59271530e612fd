//! Transport client configuration: the three fixed request headers and the
//! validation of the credential that goes into the authorization header.
//!
//! A header value accepts horizontal tab, every visible byte from space
//! upward except delete, and all bytes above the ASCII range (which is where
//! every multi-byte character lands once encoded). A credential holding any
//! other character cannot be encoded and aborts the run before any network
//! call is made.

use vstd::prelude::*;

use crate::errors::BackupError;

verus! {

/// True when `c` may appear in an HTTP header value.
pub open spec fn valid_header_char(c: char) -> bool {
    c as u32 == 9 || (c as u32 >= 32 && c as u32 != 127)
}

/// True when every character of `s` may appear in an HTTP header value.
pub open spec fn valid_header_value(s: Seq<char>) -> bool {
    forall|i: int| 0 <= i < s.len() ==> valid_header_char(s[i])
}

/// Executable check matching `valid_header_value`.
pub fn check_header_value(s: &str) -> (b: bool)
    ensures
        b == valid_header_value(s@),
{
    let n = s.unicode_len();
    let mut i: usize = 0;
    while i < n
        invariant
            n == s@.len(),
            i <= n,
            forall|j: int| 0 <= j < i ==> valid_header_char(s@[j]),
        decreases n - i,
    {
        let c = s.get_char(i);
        let v = c as u32;
        if !(v == 9 || (v >= 32 && v != 127)) {
            assert(!valid_header_char(s@[i as int]));
            return false;
        }
        i = i + 1;
    }
    true
}

/// The scheme prefix that carries the credential.
pub open spec fn spec_auth_prefix() -> Seq<char> {
    "token "@
}

/// Builds the authorization header value `token <credential>`, or reports a
/// configuration error when the credential holds a character that cannot be
/// encoded into a header value.
pub fn auth_header_value(token: &str) -> (r: Result<String, BackupError>)
    ensures
        match r {
            Ok(v) => {
                &&& valid_header_value(token@)
                &&& v@ == spec_auth_prefix() + token@
                &&& valid_header_value(v@)
            },
            Err(e) => {
                &&& !valid_header_value(token@)
                &&& e == BackupError::Configuration
            },
        },
{
    if check_header_value(token) {
        let mut s = "token ".to_owned();
        s.append(token);
        proof {
            reveal_strlit("token ");
            assert forall|i: int| 0 <= i < s@.len() implies valid_header_char(s@[i]) by {
                if i < spec_auth_prefix().len() {
                    assert(valid_header_char(spec_auth_prefix()[i]));
                } else {
                    assert(s@[i] == token@[i - spec_auth_prefix().len()]);
                }
            }
        }
        Ok(s)
    } else {
        Err(BackupError::Configuration)
    }
}

/// The fixed identifying user-agent header sent on every request.
pub fn user_agent_header() -> (s: &'static str)
    ensures
        s@ == "github-backup-rust/1.0"@,
{
    "github-backup-rust/1.0"
}

/// The versioned JSON media type pinned in the accept header.
pub fn accept_header() -> (s: &'static str)
    ensures
        s@ == "application/vnd.github.v3+json"@,
{
    "application/vnd.github.v3+json"
}

} // verus!
