//! The people of the workspace, and those among them who are followed.

use vstd::prelude::*;
use crate::errors::FileSystemError;
use crate::ids::names;
use crate::text::{compare, Order};

verus! {

/// A person known to the workspace.
#[derive(Debug, Clone)]
pub struct User {
    pub slack_user_id: String,
    pub name: String,
    /// Whether a message that involves this person raises the signal.
    pub should_follow: bool,
}

/// The identifiers of those who are followed, in the order of the list.
pub open spec fn followed_ids(users: Seq<User>) -> Seq<Seq<char>>
    decreases users.len(),
{
    if users.len() == 0 {
        Seq::empty()
    } else if users.last().should_follow {
        followed_ids(users.drop_last()).push(users.last().slack_user_id@)
    } else {
        followed_ids(users.drop_last())
    }
}

/// The characters of each string of a list.
pub open spec fn spelled(list: Seq<&str>) -> Seq<Seq<char>> {
    Seq::new(list.len(), |i: int| list[i]@)
}

/// The identifiers that a list of followed users holds.
pub open spec fn listed(list: Seq<&str>) -> Set<Seq<char>> {
    Set::new(|name: Seq<char>| exists|j: int| 0 <= j < list.len() && #[trigger] list[j]@ == name)
}

/// Two sets of identifiers have one in common.
pub open spec fn overlap(a: Set<Seq<char>>, b: Set<Seq<char>>) -> bool {
    exists|name: Seq<char>| a.contains(name) && b.contains(name)
}

impl User {
    pub fn new(slack_user_id: &str, name: &str, should_follow: bool) -> (user: User)
        ensures
            user.slack_user_id@ == slack_user_id@,
            user.name@ == name@,
            user.should_follow == should_follow,
    {
        User { slack_user_id: slack_user_id.to_owned(), name: name.to_owned(), should_follow }
    }

    /// The identifiers of the users who are followed.
    pub fn get_notifyable(users: &Vec<User>) -> (ids: Vec<&str>)
        ensures
            spelled(ids@) == followed_ids(users@),
    {
        let mut ids: Vec<&str> = Vec::new();
        let mut k: usize = 0;
        proof {
            assert(spelled(ids@) =~= followed_ids(users@.take(0)));
        }
        while k < users.len()
            invariant
                k <= users@.len(),
                spelled(ids@) == followed_ids(users@.take(k as int)),
            decreases users@.len() - k,
        {
            let ghost before = ids@;
            proof {
                assert(users@.take(k + 1).drop_last() =~= users@.take(k as int));
            }
            if users[k].should_follow {
                ids.push(users[k].slack_user_id.as_str());
                proof {
                    assert(spelled(ids@) =~= spelled(before).push(users@[k as int].slack_user_id@));
                }
            }
            k += 1;
        }
        proof {
            assert(users@.take(k as int) =~= users@);
        }
        ids
    }

    /// Whether one of `msg_users` is among `notify_to`.
    pub fn ids_intersect(msg_users: &Vec<String>, notify_to: &Vec<&str>) -> (hit: bool)
        ensures
            hit == overlap(names(msg_users@), listed(notify_to@)),
    {
        let mut i: usize = 0;
        while i < msg_users.len()
            invariant
                i <= msg_users@.len(),
                forall|a: int, b: int|
                    0 <= a < i && 0 <= b < notify_to@.len() ==> (#[trigger] msg_users@[a])@
                        != (#[trigger] notify_to@[b])@,
            decreases msg_users@.len() - i,
        {
            let mut j: usize = 0;
            while j < notify_to.len()
                invariant
                    i < msg_users@.len(),
                    j <= notify_to@.len(),
                    forall|b: int| 0 <= b < j ==> msg_users@[i as int]@ != (#[trigger] notify_to@[b])@,
                decreases notify_to@.len() - j,
            {
                if compare(msg_users[i].as_str(), notify_to[j]) == Order::Same {
                    proof {
                        let name = msg_users@[i as int]@;
                        assert(names(msg_users@).contains(name));
                        assert(listed(notify_to@).contains(name));
                    }
                    return true;
                }
                j += 1;
            }
            i += 1;
        }
        proof {
            if overlap(names(msg_users@), listed(notify_to@)) {
                let name = choose|name: Seq<char>|
                    names(msg_users@).contains(name) && listed(notify_to@).contains(name);
                let a = choose|a: int| 0 <= a < msg_users@.len() && #[trigger] msg_users@[a]@ == name;
                let b = choose|b: int| 0 <= b < notify_to@.len() && #[trigger] notify_to@[b]@ == name;
                assert(msg_users@[a]@ != notify_to@[b]@);
            }
        }
        false
    }
}

/// The users that the cache gave, and nobody where it could not be read.
pub fn load_slack_users(cached: Result<Vec<User>, FileSystemError>) -> (users: Vec<User>)
    ensures
        cached matches Ok(list) ==> users == list,
        cached is Err ==> users@.len() == 0,
{
    match cached {
        Ok(list) => list,
        Err(_) => Vec::new(),
    }
}

} // verus!
