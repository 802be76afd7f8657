//! The rules for mainchain-node credentials: either a user and password
//! together, or a cookie file holding `user:password` — never both, never
//! half of either.

use vstd::prelude::*;

verus! {

/// Why a credential configuration is refused.
#[derive(Clone, Copy, Debug, PartialEq, Eq, Structural)]
pub enum RpcAuthError {
    /// User and password must be set together.
    UserAndPasswordTogether,
    /// Precisely one of user and cookie must be set.
    OneOfUserAndCookie,
}

/// Checks which credential sources are set: a user demands a password and
/// the other way round, and exactly one of user and cookie must be given.
pub fn check_rpc_auth_config(has_user: bool, has_password: bool, has_cookie: bool) -> (r: Result<
    (),
    RpcAuthError,
>)
    ensures
        r == if has_user != has_password {
            Err::<(), _>(RpcAuthError::UserAndPasswordTogether)
        } else if has_user == has_cookie {
            Err::<(), _>(RpcAuthError::OneOfUserAndCookie)
        } else {
            Ok::<_, RpcAuthError>(())
        },
{
    if has_user != has_password {
        Err(RpcAuthError::UserAndPasswordTogether)
    } else if has_user == has_cookie {
        Err(RpcAuthError::OneOfUserAndCookie)
    } else {
        Ok(())
    }
}

/// Splits cookie bytes at the first colon into user and password. Bytes
/// without a colon are no cookie.
pub fn parse_cookie(bytes: &Vec<u8>) -> (r: Option<(Vec<u8>, Vec<u8>)>)
    ensures
        match r {
            Some((user, password)) => {
                &&& user@.len() < bytes@.len()
                &&& bytes@[user@.len() as int] == 0x3au8
                &&& user@ == bytes@.subrange(0, user@.len() as int)
                &&& password@ == bytes@.subrange(user@.len() as int + 1, bytes@.len() as int)
                &&& forall|j: int| 0 <= j < user@.len() ==> bytes@[j] != 0x3au8
            },
            None => forall|j: int| 0 <= j < bytes@.len() ==> bytes@[j] != 0x3au8,
        },
{
    let mut i: usize = 0;
    while i < bytes.len()
        invariant
            i <= bytes@.len(),
            forall|j: int| 0 <= j < i ==> bytes@[j] != 0x3au8,
        decreases bytes@.len() - i,
    {
        if bytes[i] == 0x3a {
            let user = crate::bytes::copy_range(bytes, 0, i);
            let password = crate::bytes::copy_range(bytes, i + 1, bytes.len());
            return Some((user, password));
        }
        i += 1;
    }
    None
}

} // verus!
