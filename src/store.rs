//! The users and pages tables as one transaction's working set.
//!
//! Every operation checks all its failure conditions before it writes, so a
//! failed operation leaves both tables as they were.
use vstd::prelude::*;

use crate::error::{Ex, Result};
use crate::order::{key_before, key_lt, seq_lt, lemma_key_lt_irreflexive, lemma_key_lt_transitive};
use crate::names::{set_from, set_of, sorted, set_contains, set_insert, set_remove, valid_filename, valid_username, validate_filename};
use crate::pages::{page_of, PageData, PageView};
use crate::rows::{keys_unique, lemma_rows_absent, lemma_rows_at, lemma_rows_push, lemma_rows_remove, lemma_rows_update, rows_map};
use crate::users::{UserData, UserView};

verus! {

/// The users rows seen as (name, record) pairs.
pub open spec fn user_rows(u: Seq<(String, UserData)>) -> Seq<(Seq<char>, UserView)> {
    u.map_values(|r: (String, UserData)| (r.0@, r.1@))
}

/// The pages rows seen as ((owner, file), record) pairs.
pub open spec fn page_rows(p: Seq<((String, String), PageData)>) -> Seq<((Seq<char>, Seq<char>), PageView)> {
    p.map_values(|r: ((String, String), PageData)| ((r.0.0@, r.0.1@), r.1@))
}

/// Abstract contents of the two tables.
pub struct TablesView {
    pub users: Map<Seq<char>, UserView>,
    pub pages: Map<(Seq<char>, Seq<char>), PageView>,
}

/// The rows of the users and pages tables that a transaction works on.
pub struct Tables {
    pub users: Vec<(String, UserData)>,
    pub pages: Vec<((String, String), PageData)>,
}

impl View for Tables {
    type V = TablesView;

    open spec fn view(&self) -> TablesView {
        TablesView { users: rows_map(user_rows(self.users@)), pages: rows_map(page_rows(self.pages@)) }
    }
}

/// `actor` may edit the pages of `owner`: it is the owner, or one of the owner's collaborators.
pub open spec fn authorized(users: Map<Seq<char>, UserView>, actor: Seq<char>, owner: Seq<char>) -> bool {
    actor == owner || (users.contains_key(owner) && users[owner].collabs.contains(actor))
}

/// Each user's owned files are exactly the pages stored under that user.
pub open spec fn files_match_pages(v: TablesView) -> bool {
    &&& forall|o: Seq<char>, f: Seq<char>| #[trigger] v.pages.contains_key((o, f))
        ==> v.users.contains_key(o) && v.users[o].files.contains(f)
    &&& forall|o: Seq<char>, f: Seq<char>| v.users.contains_key(o) && #[trigger] v.users[o].files.contains(f)
        ==> v.pages.contains_key((o, f))
}

/// Every stored user has a valid name.
pub open spec fn names_valid(v: TablesView) -> bool {
    forall|k: Seq<char>| #[trigger] v.users.contains_key(k) ==> valid_username(k)
}

/// The outcome of `actor` opening the editor on page `file` of `owner`.
pub open spec fn edit_result(v: TablesView, actor: Seq<char>, owner: Seq<char>, file: Seq<char>) -> Result<()> {
    if v.users.contains_key(owner) && !authorized(v.users, actor, owner) {
        Err(Ex::PermissionDenied)
    } else if !v.pages.contains_key((owner, file)) {
        Err(Ex::PageNotFound)
    } else {
        Ok(())
    }
}

/// `u` with `f` added to its owned files.
pub open spec fn with_file(u: UserView, f: Seq<char>) -> UserView {
    UserView { files: u.files.insert(f), ..u }
}

/// `u` with `f` removed from its owned files.
pub open spec fn without_file(u: UserView, f: Seq<char>) -> UserView {
    UserView { files: u.files.remove(f), ..u }
}

/// `u` with `c` added to its collaborators.
pub open spec fn with_collab(u: UserView, c: Seq<char>) -> UserView {
    UserView { collabs: u.collabs.insert(c), ..u }
}

/// The outcome of creating page `file` of `owner` on behalf of `actor`.
pub open spec fn create_result(v: TablesView, actor: Seq<char>, owner: Seq<char>, file: Seq<char>) -> Result<()> {
    if !valid_filename(file) {
        Err(Ex::InvalidFilename)
    } else if !v.users.contains_key(owner) {
        Err(Ex::UserNotFound)
    } else if !authorized(v.users, actor, owner) {
        Err(Ex::PermissionDenied)
    } else if v.pages.contains_key((owner, file)) {
        Err(Ex::PageAlreadyExists)
    } else {
        Ok(())
    }
}

/// The tables after a successful page creation at time `now`.
pub open spec fn after_create(v: TablesView, owner: Seq<char>, file: Seq<char>, now: i64) -> TablesView {
    TablesView {
        users: v.users.insert(owner, with_file(v.users[owner], file)),
        pages: v.pages.insert((owner, file), page_of("Untitled"@, ""@, now)),
    }
}

/// The outcome of updating page `file` of `owner` on behalf of `actor`.
pub open spec fn update_result(v: TablesView, actor: Seq<char>, owner: Seq<char>, file: Seq<char>) -> Result<()> {
    if !v.users.contains_key(owner) {
        Err(Ex::UserNotFound)
    } else if !authorized(v.users, actor, owner) {
        Err(Ex::PermissionDenied)
    } else if !v.pages.contains_key((owner, file)) {
        Err(Ex::PageNotFound)
    } else {
        Ok(())
    }
}

/// The tables after a successful page update at time `now`.
pub open spec fn after_update(
    v: TablesView,
    owner: Seq<char>,
    file: Seq<char>,
    title: Seq<char>,
    markdown: Seq<char>,
    now: i64,
) -> TablesView {
    TablesView {
        users: v.users.insert(owner, with_file(v.users[owner], file)),
        pages: v.pages.insert((owner, file), page_of(title, markdown, now)),
    }
}

/// The outcome of deleting page `file` of `owner` on behalf of `actor`.
pub open spec fn delete_result(v: TablesView, actor: Seq<char>, owner: Seq<char>) -> Result<()> {
    if !v.users.contains_key(owner) {
        Err(Ex::UserNotFound)
    } else if !authorized(v.users, actor, owner) {
        Err(Ex::PermissionDenied)
    } else {
        Ok(())
    }
}

/// The tables after a successful page deletion.
pub open spec fn after_delete(v: TablesView, owner: Seq<char>, file: Seq<char>) -> TablesView {
    TablesView {
        users: v.users.insert(owner, without_file(v.users[owner], file)),
        pages: v.pages.remove((owner, file)),
    }
}

proof fn lemma_create_keeps_files_match(v: TablesView, owner: Seq<char>, file: Seq<char>, now: i64)
    requires
        files_match_pages(v),
        v.users.contains_key(owner),
    ensures
        files_match_pages(after_create(v, owner, file, now)),
{
    let w = after_create(v, owner, file, now);
    assert forall|o: Seq<char>, f: Seq<char>| #[trigger] w.pages.contains_key((o, f)) implies w.users.contains_key(o)
        && w.users[o].files.contains(f) by {
        if (o, f) != (owner, file) {
            assert(v.pages.contains_key((o, f)));
        }
    }
    assert forall|o: Seq<char>, f: Seq<char>| w.users.contains_key(o) && #[trigger] w.users[o].files.contains(f)
        implies w.pages.contains_key((o, f)) by {
        if o == owner && f != file {
            assert(v.users[o].files.contains(f));
        }
    }
}

proof fn lemma_delete_keeps_files_match(v: TablesView, owner: Seq<char>, file: Seq<char>)
    requires
        files_match_pages(v),
        v.users.contains_key(owner),
    ensures
        files_match_pages(after_delete(v, owner, file)),
{
    let w = after_delete(v, owner, file);
    assert forall|o: Seq<char>, f: Seq<char>| #[trigger] w.pages.contains_key((o, f)) implies w.users.contains_key(o)
        && w.users[o].files.contains(f) by {
        assert(v.pages.contains_key((o, f)));
    }
    assert forall|o: Seq<char>, f: Seq<char>| w.users.contains_key(o) && #[trigger] w.users[o].files.contains(f)
        implies w.pages.contains_key((o, f)) by {
        assert(v.users[o].files.contains(f));
    }
}

/// Updating a page a second time with the same title and markdown succeeds,
/// leaves the users table (and so the owner's files) as the first update left
/// it, and changes the page only in its date.
pub proof fn lemma_update_twice(
    v: TablesView,
    actor: Seq<char>,
    owner: Seq<char>,
    file: Seq<char>,
    title: Seq<char>,
    markdown: Seq<char>,
    t1: i64,
    t2: i64,
)
    requires
        update_result(v, actor, owner, file) is Ok,
    ensures
        update_result(after_update(v, owner, file, title, markdown, t1), actor, owner, file) is Ok,
        after_update(after_update(v, owner, file, title, markdown, t1), owner, file, title, markdown, t2).users
            == after_update(v, owner, file, title, markdown, t1).users,
        after_update(after_update(v, owner, file, title, markdown, t1), owner, file, title, markdown, t2).pages
            == after_update(v, owner, file, title, markdown, t1).pages.insert(
            (owner, file),
            PageView { date: t2, ..after_update(v, owner, file, title, markdown, t1).pages[(owner, file)] },
        ),
{
    let v1 = after_update(v, owner, file, title, markdown, t1);
    let v2 = after_update(v1, owner, file, title, markdown, t2);
    assert(v1.users[owner].files.insert(file) =~= v1.users[owner].files);
    assert(with_file(v1.users[owner], file) == v1.users[owner]);
    assert(v2.users =~= v1.users);
    assert(v2.pages =~= v1.pages.insert((owner, file), PageView { date: t2, ..v1.pages[(owner, file)] }));
}

/// `k` is the first key of `pages` that sorts after `cur`.
pub open spec fn is_next_key(
    pages: Map<(Seq<char>, Seq<char>), PageView>,
    cur: (Seq<char>, Seq<char>),
    k: (Seq<char>, Seq<char>),
) -> bool {
    &&& pages.contains_key(k)
    &&& key_lt(cur, k)
    &&& forall|j: (Seq<char>, Seq<char>)| #[trigger] pages.contains_key(j) && key_lt(cur, j) ==> !key_lt(j, k)
}

/// Whether `actor` may edit the pages of `owner`, whose record is `owner_data`.
pub fn is_authorized(actor: &str, owner: &str, owner_data: &UserData) -> (r: bool)
    ensures
        r == (actor@ == owner@ || owner_data@.collabs.contains(actor@)),
{
    let a = actor.to_owned();
    let o = owner.to_owned();
    if a == o {
        true
    } else {
        set_contains(&owner_data.collabs, actor)
    }
}

impl Tables {
    /// Row keys are unique and every user record is well formed.
    pub open spec fn wf(&self) -> bool {
        &&& keys_unique(user_rows(self.users@))
        &&& keys_unique(page_rows(self.pages@))
        &&& forall|i: int| 0 <= i < self.users@.len() ==> (#[trigger] self.users@[i]).1.wf()
        &&& forall|i: int| 0 <= i < self.users@.len() ==> valid_username((#[trigger] self.users@[i]).0@)
    }

    /// Every user stored in well-formed tables has a valid name.
    pub proof fn lemma_names_valid(&self)
        requires
            self.wf(),
        ensures
            names_valid(self@),
    {
        assert forall|k: Seq<char>| #[trigger] self@.users.contains_key(k) implies valid_username(k) by {
            let rows = user_rows(self.users@);
            let j = choose|j: int| 0 <= j < rows.len() && #[trigger] rows[j].0 == k;
            assert(self.users@[j].0@ == k);
        }
    }

    /// Empty tables.
    pub fn new() -> (r: Self)
        ensures
            r.wf(),
            r@.users == Map::<Seq<char>, UserView>::empty(),
            r@.pages == Map::<(Seq<char>, Seq<char>), PageView>::empty(),
            files_match_pages(r@),
    {
        let r = Tables { users: Vec::new(), pages: Vec::new() };
        assert(r@.users =~= Map::<Seq<char>, UserView>::empty());
        assert(r@.pages =~= Map::<(Seq<char>, Seq<char>), PageView>::empty());
        r
    }

    pub(crate) fn find_user(&self, name: &str) -> (r: Option<usize>)
        requires
            self.wf(),
        ensures
            match r {
                Some(i) => i < self.users@.len() && self.users@[i as int].0@ == name@
                    && self@.users.contains_key(name@) && self@.users[name@] == self.users@[i as int].1@,
                None => !self@.users.contains_key(name@),
            },
    {
        let target = name.to_owned();
        let mut i: usize = 0;
        while i < self.users.len()
            invariant
                self.wf(),
                i <= self.users@.len(),
                target@ == name@,
                forall|j: int| 0 <= j < i ==> self.users@[j].0@ != name@,
            decreases self.users@.len() - i,
        {
            if self.users[i].0 == target {
                proof {
                    lemma_rows_at(user_rows(self.users@), i as int);
                }
                return Some(i);
            }
            i = i + 1;
        }
        proof {
            let rows = user_rows(self.users@);
            assert forall|j: int| 0 <= j < rows.len() implies #[trigger] rows[j].0 != name@ by {
                assert(self.users@[j].0@ != name@);
            }
            lemma_rows_absent(rows, name@);
        }
        None
    }

    fn find_page(&self, owner: &str, file: &str) -> (r: Option<usize>)
        requires
            self.wf(),
        ensures
            match r {
                Some(i) => i < self.pages@.len() && self.pages@[i as int].0.0@ == owner@
                    && self.pages@[i as int].0.1@ == file@ && self@.pages.contains_key((owner@, file@)),
                None => !self@.pages.contains_key((owner@, file@)),
            },
    {
        let o = owner.to_owned();
        let f = file.to_owned();
        let mut i: usize = 0;
        while i < self.pages.len()
            invariant
                self.wf(),
                i <= self.pages@.len(),
                o@ == owner@,
                f@ == file@,
                forall|j: int| 0 <= j < i ==> (self.pages@[j].0.0@, self.pages@[j].0.1@) != (owner@, file@),
            decreases self.pages@.len() - i,
        {
            if self.pages[i].0.0 == o && self.pages[i].0.1 == f {
                proof {
                    lemma_rows_at(page_rows(self.pages@), i as int);
                }
                return Some(i);
            }
            i = i + 1;
        }
        proof {
            let rows = page_rows(self.pages@);
            assert forall|j: int| 0 <= j < rows.len() implies #[trigger] rows[j].0 != (owner@, file@) by {
                assert((self.pages@[j].0.0@, self.pages@[j].0.1@) != (owner@, file@));
            }
            lemma_rows_absent(rows, (owner@, file@));
        }
        None
    }

    /// Takes out the record of user row `i`, to be put back with `put_user`.
    pub(crate) fn take_user(&mut self, i: usize) -> (r: (String, UserData))
        requires
            old(self).wf(),
            i < old(self).users@.len(),
        ensures
            r == old(self).users@[i as int],
            r.1.wf(),
            final(self).users@ == old(self).users@.remove(i as int),
            final(self).pages@ == old(self).pages@,
    {
        self.users.remove(i)
    }

    pub(crate) fn put_user(&mut self, i: usize, name: String, data: UserData, Ghost(prev): Ghost<Seq<(String, UserData)>>)
        requires
            keys_unique(user_rows(prev)),
            forall|j: int| 0 <= j < prev.len() ==> (#[trigger] prev[j]).1.wf(),
            forall|j: int| 0 <= j < prev.len() ==> valid_username((#[trigger] prev[j]).0@),
            keys_unique(page_rows(old(self).pages@)),
            i < prev.len(),
            name@ == prev[i as int].0@,
            old(self).users@ == prev.remove(i as int),
            data.wf(),
        ensures
            final(self).wf(),
            final(self)@.users == rows_map(user_rows(prev)).insert(name@, data@),
            final(self).pages@ == old(self).pages@,
    {
        self.users.insert(i, (name, data));
        proof {
            let rows = user_rows(prev);
            assert(user_rows(self.users@) =~= rows.update(i as int, (rows[i as int].0, data@)));
            lemma_rows_update(rows, i as int, data@);
            assert forall|j: int| 0 <= j < self.users@.len() implies (#[trigger] self.users@[j]).1.wf()
                && valid_username(self.users@[j].0@) by {
                if j != i {
                    assert(self.users@[j] == prev[j]);
                }
            }
        }
    }

    pub(crate) fn add_user(&mut self, name: &str, data: UserData)
        requires
            old(self).wf(),
            !old(self)@.users.contains_key(name@),
            valid_username(name@),
            data.wf(),
        ensures
            final(self).wf(),
            final(self)@.users == old(self)@.users.insert(name@, data@),
            final(self).pages@ == old(self).pages@,
    {
        let ghost rows = user_rows(self.users@);
        self.users.push((name.to_owned(), data));
        proof {
            assert(user_rows(self.users@) =~= rows.push((name@, data@)));
            lemma_rows_push(rows, name@, data@);
        }
    }

    fn add_page(&mut self, owner: &str, file: &str, page: PageData)
        requires
            old(self).wf(),
            !old(self)@.pages.contains_key((owner@, file@)),
        ensures
            final(self).wf(),
            final(self)@.pages == old(self)@.pages.insert((owner@, file@), page@),
            final(self).users@ == old(self).users@,
    {
        let ghost rows = page_rows(self.pages@);
        self.pages.push(((owner.to_owned(), file.to_owned()), page));
        proof {
            assert(page_rows(self.pages@) =~= rows.push(((owner@, file@), page@)));
            lemma_rows_push(rows, (owner@, file@), page@);
        }
    }

    fn put_page(&mut self, i: usize, page: PageData)
        requires
            old(self).wf(),
            i < old(self).pages@.len(),
        ensures
            final(self).wf(),
            final(self)@.pages == old(self)@.pages.insert(
                (old(self).pages@[i as int].0.0@, old(self).pages@[i as int].0.1@),
                page@,
            ),
            final(self).users@ == old(self).users@,
    {
        let ghost rows = page_rows(self.pages@);
        let (key, _) = self.pages.remove(i);
        self.pages.insert(i, (key, page));
        proof {
            assert(page_rows(self.pages@) =~= rows.update(i as int, (rows[i as int].0, page@)));
            lemma_rows_update(rows, i as int, page@);
        }
    }

    fn drop_page(&mut self, i: usize)
        requires
            old(self).wf(),
            i < old(self).pages@.len(),
        ensures
            final(self).wf(),
            final(self)@.pages == old(self)@.pages.remove(
                (old(self).pages@[i as int].0.0@, old(self).pages@[i as int].0.1@),
            ),
            final(self).users@ == old(self).users@,
    {
        let ghost rows = page_rows(self.pages@);
        let _ = self.pages.remove(i);
        proof {
            assert(page_rows(self.pages@) =~= rows.remove(i as int));
            lemma_rows_remove(rows, i as int);
        }
    }

    /// Creates the empty page `file` of `owner` on behalf of `actor`, dated `now`,
    /// and records it among the owner's files.
    pub fn create_page(&mut self, actor: &str, owner: &str, file: &str, now: i64) -> (r: Result<()>)
        requires
            old(self).wf(),
        ensures
            final(self).wf(),
            r == create_result(old(self)@, actor@, owner@, file@),
            r is Err ==> final(self)@ == old(self)@,
            r is Ok ==> final(self)@ == after_create(old(self)@, owner@, file@, now),
            files_match_pages(old(self)@) ==> files_match_pages(final(self)@),
    {
        if !validate_filename(file) {
            return Err(Ex::InvalidFilename);
        }
        let ui = match self.find_user(owner) {
            Some(i) => i,
            None => return Err(Ex::UserNotFound),
        };
        if !is_authorized(actor, owner, &self.users[ui].1) {
            return Err(Ex::PermissionDenied);
        }
        if self.find_page(owner, file).is_some() {
            return Err(Ex::PageAlreadyExists);
        }
        let ghost prev = self.users@;
        let (name, mut data) = self.take_user(ui);
        set_insert(&mut data.files, file);
        self.put_user(ui, name, data, Ghost(prev));
        self.add_page(owner, file, PageData::new_at("Untitled", "", now));
        proof {
            if files_match_pages(old(self)@) {
                lemma_create_keeps_files_match(old(self)@, owner@, file@, now);
            }
        }
        Ok(())
    }

    /// Replaces page `file` of `owner` on behalf of `actor` by `title` and
    /// `markdown`, rendered and dated `now`.
    pub fn update_page(
        &mut self,
        actor: &str,
        owner: &str,
        file: &str,
        title: &str,
        markdown: &str,
        now: i64,
    ) -> (r: Result<()>)
        requires
            old(self).wf(),
        ensures
            final(self).wf(),
            r == update_result(old(self)@, actor@, owner@, file@),
            r is Err ==> final(self)@ == old(self)@,
            r is Ok ==> final(self)@ == after_update(old(self)@, owner@, file@, title@, markdown@, now),
            files_match_pages(old(self)@) ==> files_match_pages(final(self)@),
    {
        let ui = match self.find_user(owner) {
            Some(i) => i,
            None => return Err(Ex::UserNotFound),
        };
        if !is_authorized(actor, owner, &self.users[ui].1) {
            return Err(Ex::PermissionDenied);
        }
        let pi = match self.find_page(owner, file) {
            Some(i) => i,
            None => return Err(Ex::PageNotFound),
        };
        self.put_page(pi, PageData::new_at(title, markdown, now));
        let ghost prev = self.users@;
        let (name, mut data) = self.take_user(ui);
        set_insert(&mut data.files, file);
        self.put_user(ui, name, data, Ghost(prev));
        Ok(())
    }

    /// Deletes page `file` of `owner` on behalf of `actor` and drops it from
    /// the owner's files. Deleting a page that does not exist succeeds.
    pub fn delete_page(&mut self, actor: &str, owner: &str, file: &str) -> (r: Result<()>)
        requires
            old(self).wf(),
        ensures
            final(self).wf(),
            r == delete_result(old(self)@, actor@, owner@),
            r is Err ==> final(self)@ == old(self)@,
            r is Ok ==> final(self)@ == after_delete(old(self)@, owner@, file@),
            files_match_pages(old(self)@) ==> files_match_pages(final(self)@),
    {
        let ui = match self.find_user(owner) {
            Some(i) => i,
            None => return Err(Ex::UserNotFound),
        };
        if !is_authorized(actor, owner, &self.users[ui].1) {
            return Err(Ex::PermissionDenied);
        }
        let ghost prev = self.users@;
        let (name, mut data) = self.take_user(ui);
        set_remove(&mut data.files, file);
        self.put_user(ui, name, data, Ghost(prev));
        match self.find_page(owner, file) {
            Some(pi) => self.drop_page(pi),
            None => {
                assert(self@.pages =~= self@.pages.remove((owner@, file@)));
            },
        }
        proof {
            if files_match_pages(old(self)@) {
                lemma_delete_keeps_files_match(old(self)@, owner@, file@);
            }
        }
        Ok(())
    }

    /// Reads page `file` of `owner`, with the owner, file and title of the
    /// page that follows it in (owner, file) order, if there is one.
    pub fn read_page(&self, owner: &str, file: &str) -> (r: Result<(PageData, Option<(String, String, String)>)>)
        requires
            self.wf(),
        ensures
            match r {
                Err(e) => e == Ex::PageNotFound && !self@.pages.contains_key((owner@, file@)),
                Ok((p, next)) => {
                    &&& self@.pages.contains_key((owner@, file@))
                    &&& p@ == self@.pages[(owner@, file@)]
                    &&& match next {
                        None => forall|k: (Seq<char>, Seq<char>)| #[trigger] self@.pages.contains_key(k)
                            ==> !key_lt((owner@, file@), k),
                        Some((no, nf, nt)) => is_next_key(self@.pages, (owner@, file@), (no@, nf@))
                            && nt@ == self@.pages[(no@, nf@)].title,
                    }
                },
            },
    {
        let ci = match self.find_page(owner, file) {
            Some(i) => i,
            None => return Err(Ex::PageNotFound),
        };
        let ghost rows = page_rows(self.pages@);
        let ghost cur = (owner@, file@);
        proof {
            lemma_rows_at(rows, ci as int);
        }
        let mut best: Option<usize> = None;
        let mut i: usize = 0;
        while i < self.pages.len()
            invariant
                self.wf(),
                rows == page_rows(self.pages@),
                cur == (owner@, file@),
                i <= self.pages@.len(),
                best matches Some(b) ==> b < self.pages@.len() && key_lt(cur, rows[b as int].0)
                    && forall|j: int| 0 <= j < i && key_lt(cur, #[trigger] rows[j].0) ==> !key_lt(rows[j].0, rows[b as int].0),
                best is None ==> forall|j: int| 0 <= j < i ==> !key_lt(cur, #[trigger] rows[j].0),
            decreases self.pages@.len() - i,
        {
            let k0 = self.pages[i].0.0.as_str();
            let k1 = self.pages[i].0.1.as_str();
            assert(rows[i as int].0 == (k0@, k1@));
            if key_before(owner, file, k0, k1) {
                let replace = match best {
                    None => true,
                    Some(b) => key_before(k0, k1, self.pages[b].0.0.as_str(), self.pages[b].0.1.as_str()),
                };
                proof {
                    lemma_key_lt_irreflexive(rows[i as int].0);
                    if replace {
                        if let Some(b) = best {
                            assert forall|j: int| 0 <= j < i && key_lt(cur, #[trigger] rows[j].0) implies !key_lt(rows[j].0, rows[i as int].0) by {
                                if key_lt(rows[j].0, rows[i as int].0) {
                                    lemma_key_lt_transitive(rows[j].0, rows[i as int].0, rows[b as int].0);
                                }
                            }
                        }
                    }
                }
                if replace {
                    best = Some(i);
                }
            }
            i = i + 1;
        }
        let page = self.pages[ci].1.duplicate();
        match best {
            None => {
                proof {
                    assert forall|k: (Seq<char>, Seq<char>)| #[trigger] self@.pages.contains_key(k) implies !key_lt(cur, k) by {
                        let j = choose|j: int| 0 <= j < rows.len() && #[trigger] rows[j].0 == k;
                    }
                }
                Ok((page, None))
            },
            Some(b) => {
                let no = self.pages[b].0.0.clone();
                let nf = self.pages[b].0.1.clone();
                let nt = self.pages[b].1.title.clone();
                proof {
                    lemma_rows_at(rows, b as int);
                    assert forall|k: (Seq<char>, Seq<char>)| #[trigger] self@.pages.contains_key(k) && key_lt(cur, k) implies !key_lt(k, rows[b as int].0) by {
                        let j = choose|j: int| 0 <= j < rows.len() && #[trigger] rows[j].0 == k;
                    }
                }
                Ok((page, Some((no, nf, nt))))
            },
        }
    }

    /// A copy of the record of `user`.
    pub fn read_user(&self, user: &str) -> (r: Result<UserData>)
        requires
            self.wf(),
        ensures
            match r {
                Err(e) => e == Ex::UserNotFound && !self@.users.contains_key(user@),
                Ok(d) => self@.users.contains_key(user@) && d@ == self@.users[user@] && d.wf(),
            },
    {
        match self.find_user(user) {
            None => Err(Ex::UserNotFound),
            Some(i) => Ok(self.users[i].1.duplicate()),
        }
    }

    /// The page `file` of `owner`, for `actor` to edit. An actor who is
    /// neither the owner nor one of the owner's collaborators is refused.
    pub fn read_for_edit(&self, actor: &str, owner: &str, file: &str) -> (r: Result<PageData>)
        requires
            self.wf(),
        ensures
            match r {
                Err(e) => edit_result(self@, actor@, owner@, file@) == Err::<(), Ex>(e),
                Ok(p) => edit_result(self@, actor@, owner@, file@) is Ok && p@ == self@.pages[(owner@, file@)],
            },
    {
        if let Some(ui) = self.find_user(owner) {
            if !is_authorized(actor, owner, &self.users[ui].1) {
                return Err(Ex::PermissionDenied);
            }
        }
        match self.find_page(owner, file) {
            None => Err(Ex::PageNotFound),
            Some(pi) => {
                proof {
                    lemma_rows_at(page_rows(self.pages@), pi as int);
                }
                Ok(self.pages[pi].1.duplicate())
            },
        }
    }

    /// The collaborators of `user`, and the file and title of each of the
    /// user's files that has a stored page; each list once per entry, in
    /// ascending order.
    pub fn user_listing(&self, user: &str) -> (r: Result<(Vec<String>, Vec<(String, String)>)>)
        requires
            self.wf(),
        ensures
            match r {
                Err(e) => e == Ex::UserNotFound && !self@.users.contains_key(user@),
                Ok((c, p)) => {
                    &&& self@.users.contains_key(user@)
                    &&& set_of(c@) == self@.users[user@].collabs
                    &&& sorted(c@)
                    &&& forall|i: int, j: int| 0 <= i < j < p@.len() ==> seq_lt((#[trigger] p@[i]).0@, (#[trigger] p@[j]).0@)
                    &&& forall|j: int| 0 <= j < p@.len() ==> {
                        &&& self@.users[user@].files.contains((#[trigger] p@[j]).0@)
                        &&& self@.pages.contains_key((user@, p@[j].0@))
                        &&& self@.pages[(user@, p@[j].0@)].title == p@[j].1@
                    }
                    &&& forall|f: Seq<char>| #[trigger] self@.users[user@].files.contains(f)
                        && self@.pages.contains_key((user@, f))
                        ==> exists|j: int| 0 <= j < p@.len() && p@[j].0@ == f
                },
            },
    {
        let ui = match self.find_user(user) {
            Some(i) => i,
            None => return Err(Ex::UserNotFound),
        };
        let data = &self.users[ui].1;
        let collabs = set_from(&data.collabs);
        let ghost files_set = self@.users[user@].files;
        let mut listed: Vec<(String, String)> = Vec::new();
        let mut k: usize = 0;
        while k < data.files.len()
            invariant
                self.wf(),
                data == &self.users@[ui as int].1,
                self@.users.contains_key(user@),
                files_set == self@.users[user@].files,
                files_set == set_of(data.files@),
                k <= data.files@.len(),
                forall|j: int| 0 <= j < listed@.len() ==> {
                    &&& files_set.contains((#[trigger] listed@[j]).0@)
                    &&& self@.pages.contains_key((user@, listed@[j].0@))
                    &&& self@.pages[(user@, listed@[j].0@)].title == listed@[j].1@
                },
                data.wf(),
                forall|i: int, j: int| 0 <= i < j < listed@.len() ==> seq_lt((#[trigger] listed@[i]).0@, (#[trigger] listed@[j]).0@),
                forall|j: int| 0 <= j < listed@.len() ==> exists|m: int| 0 <= m < k && (#[trigger] listed@[j]).0@ == data.files@[m]@,
                forall|m: int| 0 <= m < k && self@.pages.contains_key((user@, (#[trigger] data.files@[m])@))
                    ==> exists|j: int| 0 <= j < listed@.len() && listed@[j].0@ == data.files@[m]@,
            decreases data.files@.len() - k,
        {
            let f = data.files[k].as_str();
            assert(files_set.contains(data.files@[k as int]@));
            match self.find_page(user, f) {
                Some(pi) => {
                    proof {
                        lemma_rows_at(page_rows(self.pages@), pi as int);
                    }
                    let ghost before = listed@;
                    listed.push((f.to_owned(), self.pages[pi].1.title.clone()));
                    assert(listed@[before.len() as int].0@ == data.files@[k as int]@);
                    assert forall|a: int, b: int| 0 <= a < b < listed@.len() implies seq_lt((#[trigger] listed@[a]).0@, (#[trigger] listed@[b]).0@) by {
                        assert(listed@[a] == before[a]);
                        if b == before.len() {
                            let m = choose|m: int| 0 <= m < k && before[a].0@ == data.files@[m]@;
                            assert(seq_lt(data.files@[m]@, data.files@[k as int]@));
                        } else {
                            assert(listed@[b] == before[b]);
                        }
                    }
                    assert forall|j: int| 0 <= j < listed@.len() implies exists|m: int| 0 <= m < k + 1 && (#[trigger] listed@[j]).0@ == data.files@[m]@ by {
                        if j < before.len() {
                            assert(listed@[j] == before[j]);
                        } else {
                            assert(listed@[j].0@ == data.files@[k as int]@);
                        }
                    }
                    assert forall|m: int| 0 <= m < k + 1 && self@.pages.contains_key((user@, (#[trigger] data.files@[m])@))
                        implies exists|j: int| 0 <= j < listed@.len() && listed@[j].0@ == data.files@[m]@ by {
                        if m < k {
                            let j = choose|j: int| 0 <= j < before.len() && before[j].0@ == data.files@[m]@;
                            assert(listed@[j] == before[j]);
                        } else {
                            assert(listed@[before.len() as int].0@ == data.files@[m]@);
                        }
                    }
                },
                None => {},
            }
            k = k + 1;
        }
        proof {
            assert forall|f: Seq<char>| #[trigger] files_set.contains(f) && self@.pages.contains_key((user@, f))
                implies exists|j: int| 0 <= j < listed@.len() && listed@[j].0@ == f by {
                let m = choose|m: int| 0 <= m < data.files@.len() && #[trigger] data.files@[m]@ == f;
                assert(self@.pages.contains_key((user@, data.files@[m]@)));
            }
        }
        Ok((collabs, listed))
    }
}

} // verus!
