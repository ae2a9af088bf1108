use vstd::prelude::*;
use crate::value::{Value, Val, lit, lit_view, bytes_eq, copy_bytes, deep_fields, lemma_deep_fields};

verus! {

/// One account the demonstration auth plugin knows.
pub struct User {
    pub username: Vec<u8>,
    pub role: Vec<u8>,
    pub token: Vec<u8>,
}

/// A session-holding auth instance: a fixed user table and the user that is
/// currently logged in, if any.
pub struct Auth {
    pub current_user: Option<User>,
    pub users: Vec<User>,
}

pub open spec fn admin_name() -> Seq<u8> {
    lit_view("admin"@)
}

pub open spec fn admin_token() -> Seq<u8> {
    lit_view("admin-token"@)
}

pub open spec fn user_name() -> Seq<u8> {
    lit_view("user"@)
}

pub open spec fn user_token() -> Seq<u8> {
    lit_view("user-token"@)
}

pub open spec fn guest_role() -> Seq<u8> {
    lit_view("guest"@)
}

/// The first user of `users` whose name is `name`.
pub open spec fn lookup_user(users: Seq<User>, name: Seq<u8>) -> Option<User>
    decreases users.len(),
{
    if users.len() == 0 {
        None
    } else if users[0].username@ == name {
        Some(users[0])
    } else {
        lookup_user(users.drop_first(), name)
    }
}

/// The envelope `login` answers: on success `success`, `token` and `role`;
/// otherwise `success: false` with an `error` text.
pub open spec fn login_env(users: Seq<User>, name: Seq<u8>) -> Val {
    match lookup_user(users, name) {
        Some(u) => Val::Record(
            seq![
                (lit_view("success"@), Val::Bool(true)),
                (lit_view("token"@), Val::Text(u.token@)),
                (lit_view("role"@), Val::Text(u.role@)),
            ],
        ),
        None => Val::Record(
            seq![
                (lit_view("success"@), Val::Bool(false)),
                (lit_view("error"@), Val::Text(lit_view("Invalid credentials"@))),
            ],
        ),
    }
}

/// The fresh state `Auth::new` returns.
pub open spec fn auth_initial(a: Auth) -> bool {
    &&& a.current_user is None
    &&& a.users@.len() == 2
    &&& a.users@[0].username@ == admin_name() && a.users@[0].role@ == admin_name()
        && a.users@[0].token@ == admin_token()
    &&& a.users@[1].username@ == user_name() && a.users@[1].role@ == user_name()
        && a.users@[1].token@ == user_token()
}

impl Auth {
    /// A fresh instance: nobody logged in, the two demonstration accounts.
    pub fn new() -> (r: Auth)
        ensures
            auth_initial(r),
    {
        proof {
            reveal_strlit("admin");
            reveal_strlit("admin-token");
            reveal_strlit("user");
            reveal_strlit("user-token");
        }
        let mut users: Vec<User> = Vec::new();
        users.push(
            User { username: lit("admin"), role: lit("admin"), token: lit("admin-token") },
        );
        users.push(User { username: lit("user"), role: lit("user"), token: lit("user-token") });
        Auth { current_user: None, users }
    }

    /// Logs in by username: a matching user becomes the current user and the
    /// success envelope carries their token and role; an unknown name leaves
    /// the session unchanged and the envelope reports invalid credentials.
    /// The password is not examined: this mirrors the demonstration plugin,
    /// which accepts any password for a known name.
    pub fn login(&mut self, username: &Vec<u8>, password: &Vec<u8>) -> (r: Value)
        ensures
            final(self).users == old(self).users,
            r.deep() == login_env(old(self).users@, username@),
            match lookup_user(old(self).users@, username@) {
                Some(u) => final(self).current_user matches Some(cu) && cu.username@
                    == u.username@ && cu.role@ == u.role@ && cu.token@ == u.token@,
                None => final(self).current_user == old(self).current_user,
            },
    {
        proof {
            reveal_strlit("success");
            reveal_strlit("token");
            reveal_strlit("role");
            reveal_strlit("error");
            reveal_strlit("Invalid credentials");
        }
        let n = self.users.len();
        let idx = find_user(&self.users, username);
        proof {
            lemma_lookup_user_index(self.users@, username@, idx as int);
        }
        if idx < n {
            let found = User {
                username: copy_bytes(&self.users[idx].username),
                role: copy_bytes(&self.users[idx].role),
                token: copy_bytes(&self.users[idx].token),
            };
            let mut fields: Vec<(Vec<u8>, Value)> = Vec::new();
            fields.push((lit("success"), Value::Bool(true)));
            fields.push((lit("token"), Value::Text(copy_bytes(&found.token))));
            fields.push((lit("role"), Value::Text(copy_bytes(&found.role))));
            let env = Value::Record(fields);
            proof {
                let fs = env->Record_0;
                lemma_deep_fields(fs, 0);
                assert(deep_fields(fs, 0) =~= login_env(self.users@, username@)->Record_0);
            }
            self.current_user = Some(found);
            env
        } else {
            let mut fields: Vec<(Vec<u8>, Value)> = Vec::new();
            fields.push((lit("success"), Value::Bool(false)));
            fields.push((lit("error"), Value::Text(lit("Invalid credentials"))));
            let env = Value::Record(fields);
            proof {
                let fs = env->Record_0;
                lemma_deep_fields(fs, 0);
                assert(deep_fields(fs, 0) =~= login_env(self.users@, username@)->Record_0);
            }
            env
        }
    }

    /// Whether `token` is the token of the user currently logged in.
    pub fn verify_token(&self, token: &Vec<u8>) -> (r: bool)
        ensures
            r == match self.current_user {
                Some(u) => u.token@ == token@,
                None => false,
            },
    {
        match &self.current_user {
            Some(u) => bytes_eq(&u.token, token),
            None => false,
        }
    }

    /// The role of the current user, or `guest` when nobody is logged in.
    pub fn get_user_role(&self) -> (r: Vec<u8>)
        ensures
            r@ == match self.current_user {
                Some(u) => u.role@,
                None => guest_role(),
            },
    {
        proof {
            reveal_strlit("guest");
        }
        match &self.current_user {
            Some(u) => copy_bytes(&u.role),
            None => lit("guest"),
        }
    }

    /// Ends the session, if one is open.
    pub fn logout(&mut self)
        ensures
            final(self).current_user is None,
            final(self).users == old(self).users,
    {
        self.current_user = None;
    }
}

fn find_user(users: &Vec<User>, name: &Vec<u8>) -> (r: usize)
    ensures
        r <= users@.len(),
        r < users@.len() ==> users@[r as int].username@ == name@,
        forall|k: int| 0 <= k < r ==> users@[k].username@ != name@,
{
    let mut idx: usize = 0;
    while idx < users.len()
        invariant
            0 <= idx <= users@.len(),
            forall|k: int| 0 <= k < idx ==> users@[k].username@ != name@,
        decreases users@.len() - idx,
    {
        if bytes_eq(&users[idx].username, name) {
            return idx;
        }
        idx += 1;
    }
    idx
}

proof fn lemma_lookup_user_index(users: Seq<User>, name: Seq<u8>, idx: int)
    requires
        0 <= idx <= users.len(),
        forall|k: int| 0 <= k < idx ==> users[k].username@ != name,
        idx < users.len() ==> users[idx].username@ == name,
    ensures
        lookup_user(users, name) == (if idx < users.len() {
            Some(users[idx])
        } else {
            None::<User>
        }),
    decreases idx + 1, users.len(),
{
    if users.len() == 0 {
    } else if users[0].username@ == name {
        assert(idx == 0);
    } else {
        assert(idx >= 1);
        let rest = users.drop_first();
        assert(forall|k: int| 0 <= k < idx - 1 ==> rest[k].username@ != name);
        lemma_lookup_user_index(rest, name, idx - 1);
        if idx < users.len() {
            assert(rest[idx - 1] == users[idx]);
        }
    }
}

} // verus!
