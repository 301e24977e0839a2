//! What the client knows about other users, looked up by nickname without
//! regard to ASCII case.
use vstd::prelude::*;

use crate::collections::{AssocList, StrSet};
use crate::text::{ascii_lower, owned, push_str_chars, string_of, to_ascii_lower};

verus! {

/// One user and what is known of them.
#[derive(Debug, Clone)]
pub struct User {
    pub nick: String,
    pub username: Option<String>,
    pub hostname: Option<String>,
    pub realname: Option<String>,
    pub server: Option<String>,
    pub away: Option<String>,
    pub is_oper: bool,
    pub channels: StrSet,
}

/// The users the client knows of, keyed by lower-cased nickname.
#[derive(Debug)]
pub struct UserTracker {
    users: AssocList<User>,
}

/// `b` is `a` with only the nickname changed, to `nick`.
pub open spec fn renamed(a: User, b: User, nick: Seq<char>) -> bool {
    &&& b.nick@ == nick
    &&& b.username == a.username
    &&& b.hostname == a.hostname
    &&& b.realname == a.realname
    &&& b.server == a.server
    &&& b.away == a.away
    &&& b.is_oper == a.is_oper
    &&& b.channels@ == a.channels@
}

/// `u` is a freshly met user called `nick`.
pub open spec fn fresh_user(u: User, nick: Seq<char>) -> bool {
    &&& u.nick@ == nick
    &&& u.username is None
    &&& u.hostname is None
    &&& u.realname is None
    &&& u.server is None
    &&& u.away is None
    &&& !u.is_oper
    &&& u.channels@ == Set::<Seq<char>>::empty()
}

pub open spec fn or_star(o: Option<String>) -> Seq<char> {
    match o {
        Some(s) => s@,
        None => seq!['*'],
    }
}

impl User {
    /// A user of whom only the nickname is known.
    pub fn new(nick: &str) -> (u: User)
        ensures
            fresh_user(u, nick@),
    {
        User {
            nick: owned(nick),
            username: None,
            hostname: None,
            realname: None,
            server: None,
            away: None,
            is_oper: false,
            channels: StrSet::new(),
        }
    }

    /// `nick!user@host`, with `*` for what is unknown.
    pub fn hostmask(&self) -> (r: String)
        ensures
            r@ == self.nick@ + seq!['!'] + or_star(self.username) + seq!['@'] + or_star(
                self.hostname,
            ),
    {
        let mut out: Vec<char> = Vec::new();
        push_str_chars(&mut out, self.nick.as_str());
        out.push('!');
        match &self.username {
            Some(u) => push_str_chars(&mut out, u.as_str()),
            None => out.push('*'),
        }
        out.push('@');
        match &self.hostname {
            Some(h) => push_str_chars(&mut out, h.as_str()),
            None => out.push('*'),
        }
        assert(out@ =~= self.nick@ + seq!['!'] + or_star(self.username) + seq!['@'] + or_star(
            self.hostname,
        ));
        string_of(&out)
    }

    /// Whether the user has set an away message.
    pub fn is_away(&self) -> (r: bool)
        ensures
            r == self.away is Some,
    {
        self.away.is_some()
    }
}

impl View for UserTracker {
    type V = Map<Seq<char>, User>;

    closed spec fn view(&self) -> Map<Seq<char>, User> {
        self.users@
    }
}

impl UserTracker {
    /// The tracker's table is well formed.
    pub closed spec fn wf(&self) -> bool {
        self.users.wf()
    }

    /// An empty tracker.
    pub fn new() -> (t: UserTracker)
        ensures
            t.wf(),
            t@ == Map::<Seq<char>, User>::empty(),
    {
        UserTracker { users: AssocList::new() }
    }

    /// The user called `nick` (in any case), created if unknown; a known
    /// user takes `nick` as the spelling of their nickname.
    pub fn add_or_update(&mut self, nick: &str) -> (r: &mut User)
        requires
            old(self).wf(),
        ensures
            final(self).wf(),
            old(self)@.contains_key(ascii_lower(nick@)) ==> renamed(
                old(self)@[ascii_lower(nick@)],
                *r,
                nick@,
            ),
            !old(self)@.contains_key(ascii_lower(nick@)) ==> fresh_user(*r, nick@),
            final(self)@ == old(self)@.insert(ascii_lower(nick@), *final(r)),
    {
        let key = to_ascii_lower(nick);
        if !self.users.contains_key(key.as_str()) {
            self.users.insert(key, User::new(nick));
            let key2 = to_ascii_lower(nick);
            let u = self.users.get_mut(key2.as_str()).unwrap();
            u
        } else {
            let u = self.users.get_mut(key.as_str()).unwrap();
            u.nick = owned(nick);
            u
        }
    }

    /// Forgets the user called `nick`; returns what was known of them.
    pub fn remove(&mut self, nick: &str) -> (r: Option<User>)
        requires
            old(self).wf(),
        ensures
            final(self).wf(),
            final(self)@ == old(self)@.remove(ascii_lower(nick@)),
            match r {
                Some(u) => old(self)@.contains_key(ascii_lower(nick@)) && u == old(self)@[ascii_lower(
                    nick@,
                )],
                None => !old(self)@.contains_key(ascii_lower(nick@)),
            },
    {
        let key = to_ascii_lower(nick);
        self.users.remove(key.as_str())
    }

    /// Moves the user called `old_nick` to `new_nick`, replacing whoever
    /// was known by that name; does nothing for an unknown user.
    pub fn rename(&mut self, old_nick: &str, new_nick: &str)
        requires
            old(self).wf(),
        ensures
            final(self).wf(),
            !old(self)@.contains_key(ascii_lower(old_nick@)) ==> final(self)@ == old(self)@,
            old(self)@.contains_key(ascii_lower(old_nick@)) ==> {
                let moved = final(self)@[ascii_lower(new_nick@)];
                &&& renamed(old(self)@[ascii_lower(old_nick@)], moved, new_nick@)
                &&& final(self)@ == old(self)@.remove(ascii_lower(old_nick@)).insert(
                    ascii_lower(new_nick@),
                    moved,
                )
            },
    {
        let old_key = to_ascii_lower(old_nick);
        match self.users.remove(old_key.as_str()) {
            Some(mut user) => {
                user.nick = owned(new_nick);
                let new_key = to_ascii_lower(new_nick);
                self.users.insert(new_key, user);
            },
            None => {},
        }
    }

    /// The user called `nick`, if known.
    pub fn get(&self, nick: &str) -> (r: Option<&User>)
        requires
            self.wf(),
        ensures
            match r {
                Some(u) => self@.contains_key(ascii_lower(nick@)) && *u == self@[ascii_lower(nick@)],
                None => !self@.contains_key(ascii_lower(nick@)),
            },
    {
        let key = to_ascii_lower(nick);
        self.users.get(key.as_str())
    }

    /// The user called `nick`, to change in place.
    pub fn get_mut(&mut self, nick: &str) -> (r: Option<&mut User>)
        requires
            old(self).wf(),
        ensures
            final(self).wf(),
            match r {
                Some(u) => old(self)@.contains_key(ascii_lower(nick@)) && *u == old(self)@[ascii_lower(
                    nick@,
                )] && final(self)@ == old(self)@.insert(ascii_lower(nick@), *final(u)),
                None => !old(self)@.contains_key(ascii_lower(nick@)) && final(self)@ == old(self)@,
            },
    {
        let key = to_ascii_lower(nick);
        self.users.get_mut(key.as_str())
    }
}

impl Default for UserTracker {
    fn default() -> (t: UserTracker)
        ensures
            t.wf(),
            t@ == Map::<Seq<char>, User>::empty(),
    {
        UserTracker::new()
    }
}

} // verus!
