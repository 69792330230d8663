//! The line that is put out for a secret, with its password hash if asked
//! for.

use vstd::prelude::*;

use crate::err::{Error, ErrorKind};

verus! {

/// `pwhash::sha512_crypt::hash` on the bytes of the password: the crypt(3)
/// hash of the password under a salt that is drawn anew at each call, or the
/// message of the error with which hashing failed.
#[verifier::external_body]
fn sha512_crypt(password: &str) -> (r: Result<String, String>) {
    match pwhash::sha512_crypt::hash(password.as_bytes()) {
        Ok(hash) => Ok(hash),
        Err(e) => Err(e.to_string()),
    }
}

/// `line` is what is put out for the secret `password`: the secret itself or,
/// where a hash is asked for, the secret, a tab and a hash.
pub open spec fn is_line_of(password: Seq<char>, hash: bool, line: Seq<char>) -> bool {
    if hash {
        exists|h: Seq<char>| line == password + seq!['\t'] + h
    } else {
        line == password
    }
}

/// The line for a secret and its hash: the two, with a tab between them.
pub fn hashed_line(password: &str, hash: &str) -> (line: String)
    ensures
        line@ == password@ + seq!['\t'] + hash@,
{
    let mut line = password.to_owned();
    line.push('\t');
    line.append(hash);
    assert(line@ =~= password@ + seq!['\t'] + hash@);
    line
}

/// The line for a secret: the secret itself or, where `hash` is set, the
/// secret, a tab and its crypt(3) SHA-512 hash.
///
/// Fails with `Hash` where hashing fails. Hashing aborts where the
/// operating system supplies no random bytes for the salt.
pub fn output_line(password: String, hash: bool) -> (r: Result<String, Error>)
    ensures
        !hash ==> r == Ok::<String, Error>(password),
        match r {
            Ok(line) => is_line_of(password@, hash, line@),
            Err(e) => hash && e.kind() == ErrorKind::Hash,
        },
{
    if hash {
        match sha512_crypt(password.as_str()) {
            Ok(h) => Ok(hashed_line(password.as_str(), h.as_str())),
            Err(msg) => Err(Error::with_kind(ErrorKind::Hash, msg.as_str())),
        }
    } else {
        Ok(password)
    }
}

} // verus!
