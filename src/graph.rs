//! The collaboration graph: sign-up through an invite, and invite links
//! visited by signed-in users.
use vstd::prelude::*;
use vstd::utf8::encode_utf8;

use crate::config::Config;
use crate::error::{Ex, Result};
use crate::names::{set_insert, valid_username, validate_username};
use crate::store::{authorized, files_match_pages, names_valid, with_collab, Tables, TablesView};
use crate::token::{subject_of, unix_now, Token};
use crate::users::{passwd_hash, profile_url, UserData, UserView};

verus! {

/// The key of invite tokens under `cfg`.
pub open spec fn invite_key(cfg: Config) -> Seq<u8> {
    encode_utf8(cfg.secret_invite@)
}

/// The key of password digests under `cfg`.
pub open spec fn passwd_key(cfg: Config) -> Seq<u8> {
    encode_utf8(cfg.secret_passwd@)
}

/// The outcome of signing up `user` with `invite` at time `now`.
pub open spec fn sign_up_result(v: TablesView, user: Seq<char>, invite: Seq<char>, key: Seq<u8>, now: i64) -> Result<()> {
    match subject_of(invite, key, now) {
        None => Err(Ex::InvalidInvite),
        Some(inviter) => {
            if !valid_username(user) {
                Err(Ex::InvalidUsername)
            } else if v.users.contains_key(user) {
                Err(Ex::UserExists)
            } else if inviter.len() > 0 && !v.users.contains_key(inviter) {
                Err(Ex::InvalidInvite)
            } else {
                Ok(())
            }
        },
    }
}

/// The tables after `user`, with password digest `hash`, signed up through
/// an invite of `inviter` (empty for the root invite).
pub open spec fn after_sign_up(v: TablesView, user: Seq<char>, hash: Seq<u8>, inviter: Seq<char>) -> TablesView {
    if inviter.len() == 0 {
        TablesView {
            users: v.users.insert(user, UserView { passwd: hash, collabs: Set::empty(), files: Set::empty() }),
            pages: v.pages,
        }
    } else {
        TablesView {
            users: v.users.insert(inviter, with_collab(v.users[inviter], user)).insert(
                user,
                UserView { passwd: hash, collabs: set![inviter], files: Set::empty() },
            ),
            pages: v.pages,
        }
    }
}

/// The outcome of `user` visiting `invite` at time `now`: the profile to show.
pub open spec fn link_result(
    v: TablesView,
    base_url: Seq<char>,
    user: Seq<char>,
    invite: Seq<char>,
    key: Seq<u8>,
    now: i64,
) -> Result<Seq<char>> {
    match subject_of(invite, key, now) {
        None => Err(Ex::InvalidInvite),
        Some(inviter) => {
            if inviter.len() == 0 || inviter == user {
                Ok(profile_url(base_url, user))
            } else if !v.users.contains_key(inviter) {
                Err(Ex::InvalidInvite)
            } else {
                Ok(profile_url(base_url, inviter))
            }
        },
    }
}

/// The tables after `user` visited an invite of `inviter`.
pub open spec fn after_link(v: TablesView, user: Seq<char>, inviter: Seq<char>) -> TablesView {
    if inviter.len() == 0 || inviter == user {
        v
    } else {
        TablesView { users: v.users.insert(inviter, with_collab(v.users[inviter], user)), pages: v.pages }
    }
}

proof fn lemma_collab_keeps_files_match(v: TablesView, owner: Seq<char>, c: Seq<char>)
    requires
        files_match_pages(v),
        v.users.contains_key(owner),
    ensures
        files_match_pages(
            TablesView { users: v.users.insert(owner, with_collab(v.users[owner], c)), pages: v.pages },
        ),
{
    let w = TablesView { users: v.users.insert(owner, with_collab(v.users[owner], c)), pages: v.pages };
    assert forall|o: Seq<char>, f: Seq<char>| #[trigger] w.pages.contains_key((o, f)) implies w.users.contains_key(o)
        && w.users[o].files.contains(f) by {
        assert(v.pages.contains_key((o, f)));
    }
    assert forall|o: Seq<char>, f: Seq<char>| w.users.contains_key(o) && #[trigger] w.users[o].files.contains(f)
        implies w.pages.contains_key((o, f)) by {
        assert(v.users[o].files.contains(f));
    }
}

/// When `b` visits a live invite link of another stored user `a`, the visit
/// succeeds with `a`'s profile; afterwards `b` may edit `a`'s pages, while
/// whether `a` may edit `b`'s pages is as it was before.
pub proof fn lemma_link_grants_one_way(
    v: TablesView,
    base_url: Seq<char>,
    invite: Seq<char>,
    key: Seq<u8>,
    now: i64,
    a: Seq<char>,
    b: Seq<char>,
)
    requires
        names_valid(v),
        subject_of(invite, key, now) == Some(a),
        v.users.contains_key(a),
        a != b,
    ensures
        link_result(v, base_url, b, invite, key, now) == Ok::<Seq<char>, Ex>(profile_url(base_url, a)),
        authorized(after_link(v, b, a).users, b, a),
        authorized(after_link(v, b, a).users, a, b) == authorized(v.users, a, b),
{
    assert(valid_username(a));
}

/// After `c` signs up through an invite of `a`, each may edit the other's pages.
pub proof fn lemma_sign_up_links_both_ways(v: TablesView, c: Seq<char>, hash: Seq<u8>, a: Seq<char>)
    requires
        a.len() > 0,
        v.users.contains_key(a),
        !v.users.contains_key(c),
    ensures
        authorized(after_sign_up(v, c, hash, a).users, c, a),
        authorized(after_sign_up(v, c, hash, a).users, a, c),
{
    let w = after_sign_up(v, c, hash, a);
    assert(a != c);
    assert(w.users[a].collabs.contains(c));
    assert(w.users[c].collabs.contains(a));
}

/// The view of a string result.
pub open spec fn result_view(r: Result<String>) -> Result<Seq<char>> {
    match r {
        Ok(s) => Ok(s@),
        Err(e) => Err(e),
    }
}

impl UserData {
    /// Signs up `user` with password `passwd` through `invite_code`, checked now.
    pub fn sign_up(db: &mut Tables, cfg: &Config, user: &str, passwd: &str, invite_code: &str) -> (r: Result<()>)
        requires
            old(db).wf(),
        ensures
            final(db).wf(),
            exists|now: i64| r == sign_up_result(old(db)@, user@, invite_code@, invite_key(*cfg), now)
                && (r is Ok ==> final(db)@ == after_sign_up(
                    old(db)@,
                    user@,
                    passwd_hash(passwd_key(*cfg), passwd@),
                    subject_of(invite_code@, invite_key(*cfg), now)->Some_0,
                )),
            r is Err ==> final(db)@ == old(db)@,
    {
        let now = unix_now();
        Self::sign_up_at(db, cfg, user, passwd, invite_code, now)
    }

    /// Signs up `user` with password `passwd` through `invite_code`, checked
    /// at time `now`. A non-root invite links the new user and the inviter
    /// both ways.
    pub fn sign_up_at(
        db: &mut Tables,
        cfg: &Config,
        user: &str,
        passwd: &str,
        invite_code: &str,
        now: i64,
    ) -> (r: Result<()>)
        requires
            old(db).wf(),
        ensures
            final(db).wf(),
            r == sign_up_result(old(db)@, user@, invite_code@, invite_key(*cfg), now),
            r is Err ==> final(db)@ == old(db)@,
            r is Ok ==> final(db)@ == after_sign_up(
                old(db)@,
                user@,
                passwd_hash(passwd_key(*cfg), passwd@),
                subject_of(invite_code@, invite_key(*cfg), now)->Some_0,
            ),
            files_match_pages(old(db)@) ==> files_match_pages(final(db)@),
    {
        let inviter = match Token::parse_at(invite_code, cfg.secret_invite.as_str().as_bytes(), now) {
            Some(s) => s,
            None => return Err(Ex::InvalidInvite),
        };
        if !validate_username(user) {
            return Err(Ex::InvalidUsername);
        }
        if db.find_user(user).is_some() {
            return Err(Ex::UserExists);
        }
        let mut user_data = UserData::new(passwd, cfg.secret_passwd.as_str().as_bytes());
        if !inviter.as_str().is_empty() {
            let ii = match db.find_user(inviter.as_str()) {
                Some(i) => i,
                None => return Err(Ex::InvalidInvite),
            };
            let ghost prev = db.users@;
            let (name, mut data) = db.take_user(ii);
            set_insert(&mut data.collabs, user);
            db.put_user(ii, name, data, Ghost(prev));
            set_insert(&mut user_data.collabs, inviter.as_str());
            assert(user_data@.collabs =~= set![inviter@]);
        }
        db.add_user(user, user_data);
        proof {
            let v = old(db)@;
            let w = db@;
            assert(w.users =~= after_sign_up(v, user@, passwd_hash(passwd_key(*cfg), passwd@), inviter@).users);
        }
        Ok(())
    }

    /// Handles the visit of signed-in `user` to `invite_code`, checked now.
    pub fn link_collab(db: &mut Tables, cfg: &Config, user: &str, invite_code: &str) -> (r: Result<String>)
        requires
            old(db).wf(),
        ensures
            final(db).wf(),
            exists|now: i64| result_view(r) == link_result(old(db)@, cfg.base_url@, user@, invite_code@, invite_key(*cfg), now)
                && (r is Ok ==> final(db)@ == after_link(
                    old(db)@,
                    user@,
                    subject_of(invite_code@, invite_key(*cfg), now)->Some_0,
                )),
            r is Err ==> final(db)@ == old(db)@,
    {
        let now = unix_now();
        Self::link_collab_at(db, cfg, user, invite_code, now)
    }

    /// Handles the visit of signed-in `user` to `invite_code` at time `now`:
    /// `user` becomes a collaborator of the inviter, not the other way round.
    /// Returns the profile locator to show.
    pub fn link_collab_at(
        db: &mut Tables,
        cfg: &Config,
        user: &str,
        invite_code: &str,
        now: i64,
    ) -> (r: Result<String>)
        requires
            old(db).wf(),
        ensures
            final(db).wf(),
            result_view(r) == link_result(old(db)@, cfg.base_url@, user@, invite_code@, invite_key(*cfg), now),
            r is Err ==> final(db)@ == old(db)@,
            r is Ok ==> final(db)@ == after_link(
                old(db)@,
                user@,
                subject_of(invite_code@, invite_key(*cfg), now)->Some_0,
            ),
            files_match_pages(old(db)@) ==> files_match_pages(final(db)@),
    {
        let inviter = match Token::parse_at(invite_code, cfg.secret_invite.as_str().as_bytes(), now) {
            Some(s) => s,
            None => return Err(Ex::InvalidInvite),
        };
        let user_owned = user.to_owned();
        if inviter.as_str().is_empty() || inviter == user_owned {
            return Ok(UserData::get_profile_url(cfg.base_url.as_str(), user));
        }
        let ii = match db.find_user(inviter.as_str()) {
            Some(i) => i,
            None => return Err(Ex::InvalidInvite),
        };
        let ghost prev = db.users@;
        let (name, mut data) = db.take_user(ii);
        set_insert(&mut data.collabs, user);
        db.put_user(ii, name, data, Ghost(prev));
        proof {
            if files_match_pages(old(db)@) {
                lemma_collab_keeps_files_match(old(db)@, inviter@, user@);
            }
        }
        Ok(UserData::get_profile_url(cfg.base_url.as_str(), inviter.as_str()))
    }

    /// Checks the credentials of `user`.
    pub fn sign_in(db: &Tables, cfg: &Config, user: &str, passwd: &str) -> (r: Result<()>)
        requires
            db.wf(),
        ensures
            r == (if !db@.users.contains_key(user@) {
                Err(Ex::UserNotFound)
            } else if db@.users[user@].passwd != passwd_hash(passwd_key(*cfg), passwd@) {
                Err(Ex::InvalidCredentials)
            } else {
                Ok(())
            }),
    {
        match db.find_user(user) {
            None => Err(Ex::UserNotFound),
            Some(i) => db.users[i].1.verify_passwd(passwd, cfg.secret_passwd.as_str().as_bytes()),
        }
    }
}

} // verus!
