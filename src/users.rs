//! User records: password credentials, collaborators and owned files.
use vstd::prelude::*;
use vstd::string::StringExecFns;
use vstd::utf8::encode_utf8;

use crate::error::{Ex, Result};
use crate::names::{set_from, set_of, sorted};
use crate::token::{keyed_digest, sha3_256_of};

verus! {

/// The password digest of `passwd` under the site-wide `secret`.
pub open spec fn passwd_hash(secret: Seq<u8>, passwd: Seq<char>) -> Seq<u8> {
    sha3_256_of(secret + encode_utf8(passwd))
}

/// Abstract contents of a user record.
pub struct UserView {
    pub passwd: Seq<u8>,
    pub collabs: Set<Seq<char>>,
    pub files: Set<Seq<char>>,
}

/// A stored user: password digest, collaborators, and the files the user owns.
#[derive(Debug)]
pub struct UserData {
    pub passwd: [u8; 32],
    pub collabs: Vec<String>,
    pub files: Vec<String>,
}

impl View for UserData {
    type V = UserView;

    open spec fn view(&self) -> UserView {
        UserView { passwd: self.passwd@, collabs: set_of(self.collabs@), files: set_of(self.files@) }
    }
}

/// The profile locator of `user` under the site's base URL.
pub open spec fn profile_url(base_url: Seq<char>, user: Seq<char>) -> Seq<char> {
    base_url + seq!['@'] + user
}

impl UserData {
    /// Both sets are kept in strictly ascending order, so neither holds a name twice.
    pub open spec fn wf(&self) -> bool {
        sorted(self.collabs@) && sorted(self.files@)
    }

    /// A fresh user with password `passwd`, no collaborators and no files.
    pub fn new(passwd: &str, secret: &[u8]) -> (r: Self)
        ensures
            r.wf(),
            r@ == (UserView {
                passwd: passwd_hash(secret@, passwd@),
                collabs: Set::empty(),
                files: Set::empty(),
            }),
    {
        let r = UserData { passwd: Self::hash_passwd(passwd, secret), collabs: Vec::new(), files: Vec::new() };
        assert(set_of(r.collabs@) =~= Set::empty());
        assert(set_of(r.files@) =~= Set::empty());
        r
    }

    /// Rebuilds a record from its stored parts.
    pub fn from_parts(passwd: [u8; 32], collabs: &Vec<String>, files: &Vec<String>) -> (r: Self)
        ensures
            r.wf(),
            r@ == (UserView { passwd: passwd@, collabs: set_of(collabs@), files: set_of(files@) }),
    {
        UserData { passwd, collabs: set_from(collabs), files: set_from(files) }
    }

    /// Succeeds exactly when `passwd` is the user's password.
    pub fn verify_passwd(&self, passwd: &str, secret: &[u8]) -> (r: Result<()>)
        ensures
            r == (if self@.passwd == passwd_hash(secret@, passwd@) {
                Ok(())
            } else {
                Err(Ex::InvalidCredentials)
            }),
    {
        let h = Self::hash_passwd(passwd, secret);
        let mut i: usize = 0;
        while i < 32
            invariant
                i <= 32,
                h@ == passwd_hash(secret@, passwd@),
                forall|j: int| 0 <= j < i ==> self.passwd@[j] == h@[j],
            decreases 32 - i,
        {
            if self.passwd[i] != h[i] {
                return Err(Ex::InvalidCredentials);
            }
            i = i + 1;
        }
        assert(self.passwd@ =~= h@);
        Ok(())
    }

    /// Replaces the password by `passwd` if `old_passwd` is the current one.
    pub fn update_passwd(&mut self, old_passwd: &str, passwd: &str, secret: &[u8]) -> (r: Result<()>)
        requires
            old(self).wf(),
        ensures
            final(self).wf(),
            r == (if old(self)@.passwd == passwd_hash(secret@, old_passwd@) {
                Ok(())
            } else {
                Err(Ex::InvalidCredentials)
            }),
            r is Ok ==> final(self)@ == (UserView { passwd: passwd_hash(secret@, passwd@), ..old(self)@ }),
            r is Err ==> final(self)@ == old(self)@,
    {
        match self.verify_passwd(old_passwd, secret) {
            Ok(()) => {},
            Err(e) => return Err(e),
        }
        self.passwd = Self::hash_passwd(passwd, secret);
        Ok(())
    }

    fn hash_passwd(passwd: &str, secret: &[u8]) -> (r: [u8; 32])
        ensures
            r@ == passwd_hash(secret@, passwd@),
    {
        keyed_digest(secret, passwd.as_bytes())
    }

    /// The profile locator of `user`.
    pub fn get_profile_url(base_url: &str, user: &str) -> (r: String)
        ensures
            r@ == profile_url(base_url@, user@),
    {
        let mut r = String::from_str(base_url);
        r.append("@");
        r.append(user);
        proof {
            reveal_strlit("@");
        }
        r
    }

    /// A copy of this record.
    pub fn duplicate(&self) -> (r: Self)
        requires
            self.wf(),
        ensures
            r.wf(),
            r@ == self@,
    {
        UserData::from_parts(self.passwd, &self.collabs, &self.files)
    }
}

} // verus!
