//! A channel as the client sees it: its users, topic, modes and the
//! messages shown in its window.
use vstd::prelude::*;

use crate::collections::{AssocList, CharSet};
use crate::text::{chars_of, lemma_lex_total, lex_less, lex_lt, lower, to_lower};

verus! {

/// What kind of line a message is, which decides how it is shown.
#[derive(Debug, Clone, Copy, PartialEq, Eq, Structural)]
pub enum MessageKind {
    Normal,
    Action,
    Notice,
    System,
    Error,
    Join,
    Part,
    Quit,
    Kick,
    Mode,
    Topic,
    Nick,
}

/// A line in a window: when it arrived (milliseconds since the Unix
/// epoch), who sent it, what it says, and its kind.
#[derive(Debug, Clone)]
pub struct ChatMessage {
    pub timestamp: i64,
    pub sender: String,
    pub content: String,
    pub kind: MessageKind,
}

/// A user in a channel, with the status prefix (`@` or `+`) if any.
#[derive(Debug, Clone)]
pub struct ChannelUser {
    pub nick: String,
    pub prefix: Option<char>,
}

/// A channel: its name, topic, users by nickname, modes, the messages in
/// its window (at most `max_messages` of them when that is not 0) and how
/// many arrived while it was not shown.
#[derive(Debug)]
pub struct Channel {
    pub name: String,
    pub topic: Option<String>,
    pub users: AssocList<ChannelUser>,
    pub modes: CharSet,
    pub messages: Vec<ChatMessage>,
    pub unread_count: usize,
    pub max_messages: usize,
}

/// The time now, in milliseconds since the Unix epoch, as lines are
/// stamped: `chrono::Utc::now().timestamp_millis()`. Nothing is said of the
/// value: it is the clock's.
#[verifier::external_body]
pub(crate) fn now_millis() -> i64 {
    chrono::Utc::now().timestamp_millis()
}

/// The last `max` messages of `s`, or all of them when `max` is 0.
pub open spec fn keep_last<T>(s: Seq<T>, max: int) -> Seq<T> {
    if max > 0 && s.len() > max {
        s.skip(s.len() - max)
    } else {
        s
    }
}

/// Where a user is listed: operators, then voiced users, then the rest.
pub open spec fn rank(u: ChannelUser) -> int {
    match u.prefix {
        Some(c) => if c == '@' {
            0
        } else if c == '+' {
            1
        } else {
            2
        },
        None => 2,
    }
}

/// `a` may be listed before `b`: a better rank, or the same rank and a
/// nickname that does not come after, compared in lower case.
pub open spec fn listed_before(a: ChannelUser, b: ChannelUser) -> bool {
    rank(a) < rank(b) || (rank(a) == rank(b) && !lex_lt(lower(b.nick@), lower(a.nick@)))
}

/// `r` lists the values `vals` in another order: `origin[i]` says where
/// `r[i]` came from, and no value is listed twice.
pub open spec fn arranged<T>(r: Seq<T>, vals: Seq<T>, origin: Seq<int>) -> bool {
    &&& r.len() == vals.len() == origin.len()
    &&& forall|i: int| 0 <= i < r.len() ==> 0 <= #[trigger] origin[i] < vals.len() && r[i] == vals[origin[i]]
    &&& forall|i: int, j: int| 0 <= i < j < r.len() ==> #[trigger] origin[i] != #[trigger] origin[j]
}

/// The users a list of references points to.
pub open spec fn users_of(r: Seq<&ChannelUser>) -> Seq<ChannelUser> {
    r.map_values(|u: &ChannelUser| *u)
}

fn rank_of(u: &ChannelUser) -> (r: u8)
    ensures
        r == rank(*u),
{
    match u.prefix {
        Some(c) => if c == '@' {
            0
        } else if c == '+' {
            1
        } else {
            2
        },
        None => 2,
    }
}

impl Channel {
    /// An empty channel called `name`.
    pub fn new(name: String) -> (r: Channel)
        ensures
            r.name == name,
            r.topic is None,
            r.users.wf(),
            r.users@ == Map::<Seq<char>, ChannelUser>::empty(),
            r.modes@ == Set::<char>::empty(),
            r.messages@.len() == 0,
            r.unread_count == 0,
            r.max_messages == 0,
    {
        Channel {
            name,
            topic: None,
            users: AssocList::new(),
            modes: CharSet::new(),
            messages: Vec::new(),
            unread_count: 0,
            max_messages: 0,
        }
    }

    /// Adds a message to the window, dropping the oldest beyond
    /// `max_messages` (when that is not 0).
    pub fn add_message(&mut self, msg: ChatMessage)
        ensures
            final(self).messages@ == keep_last(old(self).messages@.push(msg), old(self).max_messages as int),
            final(self).name == old(self).name,
            final(self).topic == old(self).topic,
            final(self).users == old(self).users,
            final(self).modes == old(self).modes,
            final(self).unread_count == old(self).unread_count,
            final(self).max_messages == old(self).max_messages,
    {
        self.messages.push(msg);
        let len = self.messages.len();
        if self.max_messages > 0 && len > self.max_messages {
            let kept = self.messages.split_off(len - self.max_messages);
            self.messages = kept;
        }
    }

    /// The users, operators first, then voiced users, then the rest, each
    /// group by nickname in lower case.
    pub fn sorted_users(&self) -> (r: Vec<&ChannelUser>)
        requires
            self.users.wf(),
        ensures
            exists|origin: Seq<int>|
                #[trigger] arranged(users_of(r@), self.users.value_seq(), origin),
            forall|i: int| 0 <= i < r@.len() - 1 ==> listed_before(*r@[i], *#[trigger] r@[i + 1]),
    {
        proof {
            self.users.lemma_order();
        }
        let n = self.users.len();
        let ghost vals = self.users.value_seq();
        let mut out: Vec<&ChannelUser> = Vec::new();
        let mut keys: Vec<(u8, Vec<char>)> = Vec::new();
        let ghost mut origin: Seq<int> = Seq::empty();
        let mut i: usize = 0;
        while i < n
            invariant
                self.users.wf(),
                n == vals.len(),
                vals == self.users.value_seq(),
                i <= n,
                out@.len() == keys@.len() == origin.len() == i,
                forall|j: int| 0 <= j < i ==> 0 <= #[trigger] origin[j] < i && *out@[j] == vals[origin[j]],
                forall|j: int, k: int| 0 <= j < k < i ==> #[trigger] origin[j] != #[trigger] origin[k],
                forall|j: int|
                    0 <= j < i ==> (#[trigger] keys@[j]).0 == rank(*out@[j]) && keys@[j].1@ == lower(
                        out@[j].nick@,
                    ),
                forall|j: int| 0 <= j < i - 1 ==> listed_before(*out@[j], *#[trigger] out@[j + 1]),
            decreases n - i,
        {
            proof {
                self.users.lemma_order();
            }
            let u = self.users.value_at(i);
            let rk = rank_of(u);
            let lname = to_lower(u.nick.as_str());
            let lv = chars_of(lname.as_str());
            let mut p: usize = 0;
            let mut stop = false;
            while !stop && p < out.len()
                invariant
                    p <= out@.len() == keys@.len(),
                    forall|j: int|
                        0 <= j < keys@.len() ==> (#[trigger] keys@[j]).0 == rank(*out@[j]) && keys@[j].1@
                            == lower(out@[j].nick@),
                    rk == rank(*u),
                    lv@ == lower(u.nick@),
                    stop ==> p < out@.len() && !listed_before(*out@[p as int], *u),
                    forall|j: int| 0 <= j < p ==> listed_before(*#[trigger] out@[j], *u),
                decreases out@.len() - p + (if stop {
                    0int
                } else {
                    1int
                }),
            {
                let (kr, kn) = (keys[p].0, &keys[p].1);
                let before = kr < rk || (kr == rk && !lex_less(&lv, kn));
                if before {
                    p += 1;
                } else {
                    stop = true;
                }
            }
            let ghost old_out = out@;
            let ghost old_origin = origin;
            out.insert(p, u);
            keys.insert(p, (rk, lv));
            proof {
                origin = old_origin.insert(p as int, i as int);
                assert forall|j: int| 0 <= j < i + 1 implies 0 <= #[trigger] origin[j] < i + 1
                    && *out@[j] == vals[origin[j]] by {
                    if j < p {
                        assert(out@[j] == old_out[j] && origin[j] == old_origin[j]);
                    } else if j == p {
                    } else {
                        assert(out@[j] == old_out[j - 1] && origin[j] == old_origin[j - 1]);
                    }
                }
                assert forall|j: int, k: int| 0 <= j < k < i + 1 implies #[trigger] origin[j]
                    != #[trigger] origin[k] by {
                    if j != p && k != p {
                        let oj = if j < p {
                            j
                        } else {
                            j - 1
                        };
                        let ok = if k < p {
                            k
                        } else {
                            k - 1
                        };
                        assert(origin[j] == old_origin[oj] && origin[k] == old_origin[ok]);
                    } else if j == p {
                        assert(origin[k] == old_origin[k - 1]);
                    } else {
                        let oj = if j < p {
                            j
                        } else {
                            j - 1
                        };
                        assert(origin[j] == old_origin[oj]);
                    }
                }
                assert forall|j: int| 0 <= j < i + 1 - 1 implies listed_before(
                    *out@[j],
                    *#[trigger] out@[j + 1],
                ) by {
                    if j + 1 < p {
                        assert(out@[j] == old_out[j] && out@[j + 1] == old_out[j + 1]);
                    } else if j + 1 == p {
                        assert(out@[j] == old_out[j]);
                    } else if j == p {
                        assert(out@[j + 1] == old_out[j]);
                        let a = *u;
                        let b = *old_out[j];
                        lemma_lex_total(lower(a.nick@), lower(b.nick@));
                    } else {
                        let k = j - 1;
                        assert(out@[j] == old_out[k] && out@[j + 1] == old_out[k + 1]);
                    }
                }
            }
            i += 1;
        }
        proof {
            assert(users_of(out@) =~= Seq::new(out@.len(), |j: int| *out@[j]));
            assert(arranged(users_of(out@), vals, origin));
        }
        out
    }
}

} // verus!
