use vstd::prelude::*;

verus! {

/// The identity registered under a token: the second component of the first
/// entry whose first component is the token, if the token is known at all.
pub open spec fn lookup(users: Seq<(Seq<char>, Seq<char>)>, token: Seq<char>) -> Option<
    Seq<char>,
>
    decreases users.len(),
{
    if users.len() == 0 {
        None
    } else if users.first().0 == token {
        Some(users.first().1)
    } else {
        lookup(users.drop_first(), token)
    }
}

/// The static token-to-identity table that authentication answers from,
/// loaded once at startup.
pub struct UserDatabase {
    users: Vec<(String, String)>,
}

spec fn users_view(us: Seq<(String, String)>) -> Seq<(Seq<char>, Seq<char>)> {
    us.map_values(|p: (String, String)| (p.0@, p.1@))
}

impl View for UserDatabase {
    type V = Seq<(Seq<char>, Seq<char>)>;

    closed spec fn view(&self) -> Seq<(Seq<char>, Seq<char>)> {
        users_view(self.users@)
    }
}

impl UserDatabase {
    /// The table used when none is on disk: two sample tokens.
    pub fn default() -> (d: UserDatabase)
        ensures
            d@ == seq![("token1"@, "user1"@), ("token2"@, "user2"@)],
    {
        let mut users: Vec<(String, String)> = Vec::new();
        users.push(("token1".to_owned(), "user1".to_owned()));
        users.push(("token2".to_owned(), "user2".to_owned()));
        let d = UserDatabase { users };
        proof {
            assert(d@ =~= seq![("token1"@, "user1"@), ("token2"@, "user2"@)]);
        }
        d
    }

    /// A table holding exactly the given token-to-identity entries.
    pub fn from_entries(users: Vec<(String, String)>) -> (d: UserDatabase)
        ensures
            d@ == users@.map_values(|p: (String, String)| (p.0@, p.1@)),
    {
        UserDatabase { users }
    }

    /// The token-to-identity entries the table holds.
    pub fn entries(&self) -> (v: &Vec<(String, String)>)
        ensures
            self@ == v@.map_values(|p: (String, String)| (p.0@, p.1@)),
    {
        &self.users
    }
}

/// Resolves session tokens to known identities against the user database.
pub struct Authentication {
    database: UserDatabase,
}

impl View for Authentication {
    type V = Seq<(Seq<char>, Seq<char>)>;

    closed spec fn view(&self) -> Seq<(Seq<char>, Seq<char>)> {
        self.database@
    }
}

impl Authentication {
    /// An authentication front answering from the given database.
    pub fn new(users: UserDatabase) -> (a: Authentication)
        ensures
            a@ == users@,
    {
        Authentication { database: users }
    }

    /// The identity the token is registered under, or nothing for an unknown
    /// token.
    pub fn process_request(&mut self, token: &String) -> (r: Option<String>)
        ensures
            final(self)@ == old(self)@,
            (match r {
                Some(u) => lookup(old(self)@, token@) == Some(u@),
                None => lookup(old(self)@, token@) is None,
            }),
    {
        let ghost t0 = self@;
        proof {
            assert(t0.skip(0) =~= t0);
        }
        let mut i: usize = 0;
        while i < self.database.users.len()
            invariant
                i <= self.database.users.len(),
                lookup(t0, token@) == lookup(t0.skip(i as int), token@),
            decreases self.database.users.len() - i,
        {
            proof {
                assert(t0.skip(i as int).first() == t0[i as int]);
            }
            if self.database.users[i].0 == *token {
                proof {
                    assert(t0[i as int].0 == token@);
                    assert(lookup(t0, token@) == Some(t0[i as int].1));
                }
                return Some(self.database.users[i].1.clone());
            }
            proof {
                assert(t0[i as int].0 != token@);
                assert(t0.skip(i as int).drop_first() =~= t0.skip(i + 1));
            }
            i += 1;
        }
        proof {
            assert(t0.skip(i as int) =~= Seq::<(Seq<char>, Seq<char>)>::empty());
        }
        None
    }
}

} // verus!
