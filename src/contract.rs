//! The contract state: registered accounts, friendships and message logs.

use vstd::prelude::*;
use crate::channel::{channel_id, channel_of, ChannelId};
use crate::host::{block_timestamp_ms, predecessor_account_id};
use crate::page::{limit_or_default, offset_or_default, page, page_of};

verus! {

/// A message of a channel's log.
pub struct Message {
    pub author: String,
    pub content: String,
    pub created_at_ms: u64,
}

/// What a message holds, as plain values.
pub struct MessageView {
    pub author: Seq<char>,
    pub content: Seq<char>,
    pub created_at_ms: u64,
}

impl View for Message {
    type V = MessageView;

    open spec fn view(&self) -> MessageView {
        MessageView { author: self.author@, content: self.content@, created_at_ms: self.created_at_ms }
    }
}

/// Why an operation was refused. A refused operation changes nothing.
#[derive(Debug, Clone, Copy, PartialEq, Eq, Structural)]
pub enum ChatError {
    /// The caller is not a registered account.
    Unauthorized,
    /// The account named as counterpart is not registered.
    InvalidTarget,
    /// The caller named itself as counterpart.
    SelfReference,
    /// The caller has no friends at all.
    NoFriendsAtAll,
    /// The caller is not friends with the account named.
    NotFriend,
    /// The message has no content.
    EmptyMessage,
    /// No message was ever sent on the channel asked for.
    NoSuchChannel,
}

/// The state of the service as mathematical values.
pub struct ContractView {
    /// Registered accounts, in the order they registered.
    pub users: Seq<Seq<char>>,
    /// Directed friendship facts `(a, b)`: `a` counts `b` as a friend.
    pub friends: Set<(Seq<char>, Seq<char>)>,
    /// The message log of each channel that holds one, oldest first.
    pub logs: Map<Seq<u8>, Seq<MessageView>>,
}

/// The state of the service.
pub struct Contract {
    users: Vec<String>,
    friends: Vec<(String, String)>,
    messages: Vec<(ChannelId, Vec<Message>)>,
}

/// The views of a sequence of messages.
pub open spec fn message_views(s: Seq<Message>) -> Seq<MessageView> {
    s.map_values(|m: Message| m@)
}

/// Whether `a` has at least one friendship fact of its own.
pub open spec fn has_friends(v: ContractView, a: Seq<char>) -> bool {
    exists|b: Seq<char>| v.friends.contains((a, b))
}

/// Registration of `c`: the new state and whether `c` was new.
pub open spec fn register_step(v: ContractView, c: Seq<char>) -> (ContractView, bool) {
    if v.users.contains(c) {
        (v, false)
    } else {
        (ContractView { users: v.users.push(c), friends: v.friends, logs: v.logs }, true)
    }
}

/// `a` adding `b` as a friend: the new state, or why it is refused.
pub open spec fn add_friend_step(v: ContractView, a: Seq<char>, b: Seq<char>) -> Result<
    ContractView,
    ChatError,
> {
    if !v.users.contains(a) {
        Err(ChatError::Unauthorized)
    } else if !v.users.contains(b) {
        Err(ChatError::InvalidTarget)
    } else if a == b {
        Err(ChatError::SelfReference)
    } else {
        Ok(
            ContractView {
                users: v.users,
                friends: v.friends.insert((a, b)).insert((b, a)),
                logs: v.logs,
            },
        )
    }
}

/// The log of channel `c`, empty where it has none.
pub open spec fn log_or_empty(v: ContractView, c: Seq<u8>) -> Seq<MessageView> {
    if v.logs.contains_key(c) {
        v.logs[c]
    } else {
        Seq::empty()
    }
}

/// `a` sending `content` to `b` at time `now`: the new state and the channel
/// written to, or why it is refused.
pub open spec fn send_step(
    v: ContractView,
    a: Seq<char>,
    b: Seq<char>,
    content: Seq<char>,
    now: u64,
) -> Result<(ContractView, Seq<u8>), ChatError> {
    if !v.users.contains(a) {
        Err(ChatError::Unauthorized)
    } else if !v.users.contains(b) {
        Err(ChatError::InvalidTarget)
    } else if !has_friends(v, a) {
        Err(ChatError::NoFriendsAtAll)
    } else if !v.friends.contains((a, b)) {
        Err(ChatError::NotFriend)
    } else if content.len() == 0 {
        Err(ChatError::EmptyMessage)
    } else {
        let c = channel_of(a, b);
        let m = MessageView { author: a, content, created_at_ms: now };
        Ok(
            (
                ContractView {
                    users: v.users,
                    friends: v.friends,
                    logs: v.logs.insert(c, log_or_empty(v, c).push(m)),
                },
                c,
            ),
        )
    }
}

/// Whether `after` and `r` are what `a` adding `b` as a friend in state
/// `before` gives: the new state, or the error and no change.
pub open spec fn add_friend_outcome(
    before: ContractView,
    after: ContractView,
    r: Result<(), ChatError>,
    a: Seq<char>,
    b: Seq<char>,
) -> bool {
    match r {
        Ok(()) => add_friend_step(before, a, b) == Ok::<ContractView, ChatError>(after),
        Err(e) => add_friend_step(before, a, b) == Err::<ContractView, ChatError>(e) && after
            == before,
    }
}

/// Whether `after` and `r` are what `a` sending `content` to `b` at time
/// `now` in state `before` gives: the new state and the channel written to,
/// or the error and no change.
pub open spec fn send_outcome(
    before: ContractView,
    after: ContractView,
    r: Result<ChannelId, ChatError>,
    a: Seq<char>,
    b: Seq<char>,
    content: Seq<char>,
    now: u64,
) -> bool {
    match r {
        Ok(c) => send_step(before, a, b, content, now) == Ok::<(ContractView, Seq<u8>), ChatError>(
            (after, c@),
        ),
        Err(e) => send_step(before, a, b, content, now) == Err::<
            (ContractView, Seq<u8>),
            ChatError,
        >(e) && after == before,
    }
}

/// A page of the messages of the channel of `(a, b)`, newest first, or
/// `NoSuchChannel` where that channel has no log.
pub open spec fn messages_step(
    v: ContractView,
    a: Seq<char>,
    b: Seq<char>,
    limit: nat,
    offset: nat,
) -> Result<Seq<MessageView>, ChatError> {
    let c = channel_of(a, b);
    if v.logs.contains_key(c) {
        Ok(page(v.logs[c], limit, offset))
    } else {
        Err(ChatError::NoSuchChannel)
    }
}

/// The directed friendship facts held by a list of pairs.
closed spec fn friend_set(f: Seq<(String, String)>) -> Set<(Seq<char>, Seq<char>)> {
    Set::new(|p: (Seq<char>, Seq<char>)| exists|i: int| 0 <= i < f.len() && #[trigger] friend_at(f, i) == p)
}

/// The `i`-th directed friendship fact of a list of pairs.
closed spec fn friend_at(f: Seq<(String, String)>, i: int) -> (Seq<char>, Seq<char>) {
    (f[i].0@, f[i].1@)
}

/// The channel of the `i`-th log of a list of logs.
closed spec fn channel_at(m: Seq<(ChannelId, Vec<Message>)>, i: int) -> Seq<u8> {
    m[i].0@
}

/// Whether a list of logs holds one for channel `c`.
closed spec fn has_channel(m: Seq<(ChannelId, Vec<Message>)>, c: Seq<u8>) -> bool {
    exists|i: int| 0 <= i < m.len() && #[trigger] channel_at(m, i) == c
}

/// The position of channel `c`'s log in a list of logs.
closed spec fn index_of_channel(m: Seq<(ChannelId, Vec<Message>)>, c: Seq<u8>) -> int {
    choose|i: int| 0 <= i < m.len() && channel_at(m, i) == c
}

/// Whether no channel has two logs in a list of logs.
closed spec fn channels_unique(m: Seq<(ChannelId, Vec<Message>)>) -> bool {
    forall|i: int, j: int|
        0 <= i < j < m.len() ==> #[trigger] channel_at(m, i) != #[trigger] channel_at(m, j)
}

/// The logs held by a list of logs, by channel.
closed spec fn log_map(m: Seq<(ChannelId, Vec<Message>)>) -> Map<Seq<u8>, Seq<MessageView>> {
    Map::new(|c: Seq<u8>| has_channel(m, c), |c: Seq<u8>| message_views(m[index_of_channel(m, c)].1@))
}

impl View for Contract {
    type V = ContractView;

    closed spec fn view(&self) -> ContractView {
        ContractView {
            users: self.users@.map_values(|s: String| s@),
            friends: friend_set(self.friends@),
            logs: log_map(self.messages@),
        }
    }
}

impl Contract {
    /// The invariant: accounts are registered once each and their number fits
    /// in a `u32`; friendship facts join two distinct registered accounts and
    /// come in symmetric pairs; each channel has at most one log.
    pub closed spec fn wf(&self) -> bool {
        &&& self@.users.no_duplicates()
        &&& self.users@.len() <= u32::MAX
        &&& forall|p: (Seq<char>, Seq<char>)| #[trigger]
            self@.friends.contains(p) ==> {
                &&& self@.friends.contains((p.1, p.0))
                &&& p.0 != p.1
                &&& self@.users.contains(p.0)
                &&& self@.users.contains(p.1)
            }
        &&& channels_unique(self.messages@)
    }

    /// A service with no accounts, friendships or messages.
    pub fn new() -> (r: Contract)
        ensures
            r.wf(),
            r@.users == Seq::<Seq<char>>::empty(),
            r@.friends == Set::<(Seq<char>, Seq<char>)>::empty(),
            r@.logs == Map::<Seq<u8>, Seq<MessageView>>::empty(),
    {
        let r = Contract { users: Vec::new(), friends: Vec::new(), messages: Vec::new() };
        assert(r@.users =~= Seq::<Seq<char>>::empty());
        assert(r@.friends =~= Set::<(Seq<char>, Seq<char>)>::empty());
        assert(r@.logs =~= Map::<Seq<u8>, Seq<MessageView>>::empty());
        r
    }

    /// Whether `id` is a registered account.
    pub fn is_registered(&self, id: &String) -> (r: bool)
        ensures
            r == self@.users.contains(id@),
    {
        let mut i: usize = 0;
        while i < self.users.len()
            invariant
                0 <= i <= self.users@.len(),
                forall|k: int| 0 <= k < i ==> self.users@[k]@ != id@,
            decreases self.users@.len() - i,
        {
            if self.users[i].eq(id) {
                assert(self@.users[i as int] == id@);
                return true;
            }
            i += 1;
        }
        proof {
            if self@.users.contains(id@) {
                let k = choose|k: int| 0 <= k < self@.users.len() && self@.users[k] == id@;
                assert(self.users@[k]@ == id@);
            }
        }
        false
    }

    /// The number of registered accounts.
    pub fn get_users_length(&self) -> (r: u32)
        requires
            self.wf(),
        ensures
            r as int == self@.users.len(),
    {
        self.users.len() as u32
    }

    /// Registers `user_id`; returns whether it was not registered before.
    pub fn register(&mut self, user_id: String) -> (r: bool)
        requires
            old(self).wf(),
            old(self)@.users.len() < u32::MAX,
        ensures
            final(self).wf(),
            (final(self)@, r) == register_step(old(self)@, user_id@),
    {
        if self.is_registered(&user_id) {
            return false;
        }
        let ghost old_users = self@.users;
        self.users.push(user_id);
        proof {
            assert(self@.users =~= old_users.push(user_id@));
            assert forall|c: Seq<char>| old_users.contains(c) implies self@.users.contains(c) by {
                let k = choose|k: int| 0 <= k < old_users.len() && old_users[k] == c;
                assert(self@.users[k] == c);
            }
            assert(self@.friends =~= old(self)@.friends);
            assert(self@.logs =~= old(self)@.logs);
        }
        true
    }

    /// Whether `a` counts `b` as a friend.
    pub fn are_friends(&self, a: &String, b: &String) -> (r: bool)
        ensures
            r == self@.friends.contains((a@, b@)),
    {
        let mut i: usize = 0;
        while i < self.friends.len()
            invariant
                0 <= i <= self.friends@.len(),
                forall|k: int| 0 <= k < i ==> friend_at(self.friends@, k) != (a@, b@),
            decreases self.friends@.len() - i,
        {
            if self.friends[i].0.eq(a) && self.friends[i].1.eq(b) {
                assert(friend_at(self.friends@, i as int) == (a@, b@));
                return true;
            }
            i += 1;
        }
        false
    }

    /// Whether `a` counts anyone as a friend.
    fn has_any_friend(&self, a: &String) -> (r: bool)
        ensures
            r == has_friends(self@, a@),
    {
        let mut i: usize = 0;
        while i < self.friends.len()
            invariant
                0 <= i <= self.friends@.len(),
                forall|k: int| 0 <= k < i ==> friend_at(self.friends@, k).0 != a@,
            decreases self.friends@.len() - i,
        {
            if self.friends[i].0.eq(a) {
                assert(self@.friends.contains(friend_at(self.friends@, i as int)));
                return true;
            }
            i += 1;
        }
        false
    }

    /// `user_id` adds `friend_id` as a friend, in both directions. Adding a
    /// friendship that exists already changes nothing.
    pub fn add_friend_as(&mut self, user_id: String, friend_id: String) -> (r: Result<(), ChatError>)
        requires
            old(self).wf(),
        ensures
            final(self).wf(),
            add_friend_outcome(old(self)@, final(self)@, r, user_id@, friend_id@),
    {
        if !self.is_registered(&user_id) {
            return Err(ChatError::Unauthorized);
        }
        if !self.is_registered(&friend_id) {
            return Err(ChatError::InvalidTarget);
        }
        if user_id.eq(&friend_id) {
            return Err(ChatError::SelfReference);
        }
        let ghost a = user_id@;
        let ghost b = friend_id@;
        if self.are_friends(&user_id, &friend_id) {
            assert(self@.friends.insert((a, b)).insert((b, a)) =~= self@.friends);
            return Ok(());
        }
        let ghost old_friends = self.friends@;
        let user_copy = user_id.clone();
        let friend_copy = friend_id.clone();
        self.friends.push((user_id, friend_id));
        self.friends.push((friend_copy, user_copy));
        proof {
            lemma_friend_set_push(old_friends, self.friends@[old_friends.len() as int]);
            lemma_friend_set_push(old_friends.push(self.friends@[old_friends.len() as int]),
                self.friends@[old_friends.len() + 1 as int]);
            assert(self.friends@ == old_friends.push(self.friends@[old_friends.len() as int]).push(
                self.friends@[old_friends.len() + 1 as int]));
            assert(self@.users == old(self)@.users);
            assert(self@.friends == old(self)@.friends.insert((a, b)).insert((b, a)));
        }
        Ok(())
    }

    /// `user_id` sends `message_content` to `receiver_id` at time
    /// `created_at_ms`; the message goes to the end of the log of the channel
    /// of `(user_id, receiver_id)`, which is returned.
    pub fn send_message_as(
        &mut self,
        user_id: String,
        receiver_id: String,
        message_content: String,
        created_at_ms: u64,
    ) -> (r: Result<ChannelId, ChatError>)
        requires
            old(self).wf(),
        ensures
            final(self).wf(),
            send_outcome(
                old(self)@,
                final(self)@,
                r,
                user_id@,
                receiver_id@,
                message_content@,
                created_at_ms,
            ),
    {
        if !self.is_registered(&user_id) {
            return Err(ChatError::Unauthorized);
        }
        if !self.is_registered(&receiver_id) {
            return Err(ChatError::InvalidTarget);
        }
        if !self.has_any_friend(&user_id) {
            return Err(ChatError::NoFriendsAtAll);
        }
        if !self.are_friends(&user_id, &receiver_id) {
            return Err(ChatError::NotFriend);
        }
        if message_content.as_str().is_empty() {
            return Err(ChatError::EmptyMessage);
        }
        let c = channel_id(user_id.as_str(), receiver_id.as_str());
        let msg = Message { author: user_id, content: message_content, created_at_ms };
        self.append(c, msg);
        Ok(c)
    }

    /// The channel identifier of the ordered pair `(user_id, receiver_id)`.
    pub fn get_chat_id(&self, user_id: String, receiver_id: String) -> (r: ChannelId)
        ensures
            r@ == channel_of(user_id@, receiver_id@),
    {
        channel_id(user_id.as_str(), receiver_id.as_str())
    }

    /// At most `limit` (default ten) messages of the channel of
    /// `(user_id, receiver_id)`, newest first, after skipping `offset`
    /// (default none) of them.
    pub fn get_messages(
        &self,
        user_id: String,
        receiver_id: String,
        limit: Option<u32>,
        offset: Option<u32>,
    ) -> (r: Result<Vec<&Message>, ChatError>)
        requires
            self.wf(),
        ensures
            match r {
                Ok(ms) => messages_step(
                    self@,
                    user_id@,
                    receiver_id@,
                    limit_or_default(limit),
                    offset_or_default(offset),
                ) == Ok::<Seq<MessageView>, ChatError>(ms@.map_values(|m: &Message| m@)),
                Err(e) => messages_step(
                    self@,
                    user_id@,
                    receiver_id@,
                    limit_or_default(limit),
                    offset_or_default(offset),
                ) == Err::<Seq<MessageView>, ChatError>(e),
            },
    {
        let c = channel_id(user_id.as_str(), receiver_id.as_str());
        match self.find_channel(&c) {
            Some(j) => {
                let log = &self.messages[j].1;
                let ms = page_of(log, limit, offset);
                proof {
                    let m = self.messages@;
                    assert(has_channel(m, c@));
                    lemma_index_unique(m, c@, j as int);
                    assert(self@.logs[c@] == message_views(log@));
                    let lim = limit_or_default(limit);
                    let off = offset_or_default(offset);
                    let p = page(log@, lim, off);
                    let q = page(message_views(log@), lim, off);
                    assert(q.len() == p.len());
                    assert forall|i: int| 0 <= i < q.len() implies #[trigger] q[i] == p[i]@ by {}
                    assert(ms@.map_values(|x: &Message| x@) =~= q);
                }
                Ok(ms)
            },
            None => Err(ChatError::NoSuchChannel),
        }
    }

    /// At most `limit` (default ten) registered accounts, the latest to
    /// register first, after skipping `offset` (default none) of them.
    pub fn get_users(&self, limit: Option<u32>, offset: Option<u32>) -> (r: Vec<&String>)
        ensures
            r@.map_values(|u: &String| u@) == page(
                self@.users,
                limit_or_default(limit),
                offset_or_default(offset),
            ),
    {
        let us = page_of(&self.users, limit, offset);
        proof {
            let lim = limit_or_default(limit);
            let off = offset_or_default(offset);
            let p = page(self.users@, lim, off);
            let q = page(self@.users, lim, off);
            assert(q.len() == p.len());
            assert forall|i: int| 0 <= i < q.len() implies #[trigger] q[i] == p[i]@ by {}
            assert(us@.map_values(|x: &String| x@) =~= q);
        }
        us
    }

    /// Registers the calling account; returns whether it was not registered
    /// before.
    pub fn create_account(&mut self) -> (r: bool)
        requires
            old(self).wf(),
            old(self)@.users.len() < u32::MAX,
        ensures
            final(self).wf(),
            exists|caller: Seq<char>| (final(self)@, r) == register_step(old(self)@, caller),
    {
        let caller = predecessor_account_id();
        let r = self.register(caller);
        assert((self@, r) == register_step(old(self)@, caller@));
        r
    }

    /// The calling account adds `friend_id` as a friend, in both directions.
    pub fn add_friend(&mut self, friend_id: String) -> (r: Result<(), ChatError>)
        requires
            old(self).wf(),
        ensures
            final(self).wf(),
            exists|caller: Seq<char>|
                #[trigger] add_friend_outcome(old(self)@, final(self)@, r, caller, friend_id@),
    {
        let caller = predecessor_account_id();
        let ghost c = caller@;
        let r = self.add_friend_as(caller, friend_id);
        assert(add_friend_outcome(old(self)@, self@, r, c, friend_id@));
        r
    }

    /// The calling account sends `message_content` to `receiver_id`, stamped
    /// with the current block time; returns the channel written to.
    pub fn send_message(&mut self, receiver_id: String, message_content: String) -> (r: Result<
        ChannelId,
        ChatError,
    >)
        requires
            old(self).wf(),
        ensures
            final(self).wf(),
            exists|caller: Seq<char>, now: u64|
                #[trigger] send_outcome(
                    old(self)@,
                    final(self)@,
                    r,
                    caller,
                    receiver_id@,
                    message_content@,
                    now,
                ),
    {
        let caller = predecessor_account_id();
        let now = block_timestamp_ms();
        let ghost c = caller@;
        let ghost content = message_content@;
        let r = self.send_message_as(caller, receiver_id, message_content, now);
        assert(send_outcome(old(self)@, self@, r, c, receiver_id@, content, now));
        r
    }

    /// The position of channel `c`'s log, if it has one.
    fn find_channel(&self, c: &ChannelId) -> (r: Option<usize>)
        ensures
            match r {
                Some(j) => j < self.messages@.len() && channel_at(self.messages@, j as int) == c@,
                None => !has_channel(self.messages@, c@),
            },
    {
        let mut i: usize = 0;
        while i < self.messages.len()
            invariant
                0 <= i <= self.messages@.len(),
                forall|k: int| 0 <= k < i ==> channel_at(self.messages@, k) != c@,
            decreases self.messages@.len() - i,
        {
            if same_digest(&self.messages[i].0, c) {
                return Some(i);
            }
            i += 1;
        }
        None
    }

    /// Appends `msg` to the log of channel `c`, which is made where it is missing.
    fn append(&mut self, c: ChannelId, msg: Message)
        requires
            old(self).wf(),
        ensures
            final(self).wf(),
            final(self)@.users == old(self)@.users,
            final(self)@.friends == old(self)@.friends,
            final(self)@.logs == old(self)@.logs.insert(c@, log_or_empty(old(self)@, c@).push(msg@)),
    {
        let ghost old_m = self.messages@;
        let ghost mv = msg@;
        match self.find_channel(&c) {
            Some(j) => {
                let ghost old_log = self.messages@[j as int].1@;
                self.messages[j].1.push(msg);
                proof {
                    let m = self.messages@;
                    assert forall|k: int| 0 <= k < m.len() implies channel_at(m, k) == channel_at(old_m, k) by {}
                    assert(channels_unique(m));
                    assert(has_channel(old_m, c@));
                    lemma_index_unique(old_m, c@, j as int);
                    assert(log_or_empty(old(self)@, c@) == message_views(old_log));
                    assert(message_views(m[j as int].1@) =~= message_views(old_log).push(mv));
                    assert forall|d: Seq<u8>| has_channel(m, d) == has_channel(old_m, d) by {
                        if has_channel(m, d) {
                            let k = choose|k: int| 0 <= k < m.len() && #[trigger] channel_at(m, k) == d;
                            assert(channel_at(old_m, k) == d);
                        }
                        if has_channel(old_m, d) {
                            let k = choose|k: int| 0 <= k < old_m.len() && #[trigger] channel_at(old_m, k) == d;
                            assert(channel_at(m, k) == d);
                        }
                    }
                    assert forall|d: Seq<u8>| #[trigger] has_channel(m, d) implies
                        index_of_channel(m, d) == index_of_channel(old_m, d) by {
                        let k = index_of_channel(old_m, d);
                        lemma_index_unique(m, d, k);
                    }
                    assert(log_map(m) =~= log_map(old_m).insert(c@, message_views(old_log).push(mv)));
                    assert(self@.users == old(self)@.users);
                    assert(self.users@ == old(self).users@);
                    assert(self@.friends == old(self)@.friends);
                }
            },
            None => {
                let mut log: Vec<Message> = Vec::new();
                log.push(msg);
                self.messages.push((c, log));
                proof {
                    let m = self.messages@;
                    let n = old_m.len() as int;
                    assert(log_or_empty(old(self)@, c@) == Seq::<MessageView>::empty());
                    assert(message_views(m[n].1@) =~= Seq::<MessageView>::empty().push(mv));
                    assert forall|k: int| 0 <= k < n implies channel_at(m, k) == channel_at(old_m, k) by {}
                    assert(channels_unique(m));
                    assert forall|d: Seq<u8>| has_channel(m, d) == (has_channel(old_m, d) || d == c@) by {
                        if has_channel(m, d) {
                            let k = choose|k: int| 0 <= k < m.len() && #[trigger] channel_at(m, k) == d;
                            if k < n {
                                assert(channel_at(old_m, k) == d);
                            }
                        }
                        if has_channel(old_m, d) {
                            let k = choose|k: int| 0 <= k < old_m.len() && #[trigger] channel_at(old_m, k) == d;
                            assert(channel_at(m, k) == d);
                        }
                        if d == c@ {
                            assert(channel_at(m, n) == d);
                        }
                    }
                    assert forall|d: Seq<u8>| #[trigger] has_channel(old_m, d) implies
                        index_of_channel(m, d) == index_of_channel(old_m, d) by {
                        let k = index_of_channel(old_m, d);
                        lemma_index_unique(m, d, k);
                    }
                    lemma_index_unique(m, c@, n);
                    assert(log_map(m) =~= log_map(old_m).insert(c@, Seq::<MessageView>::empty().push(mv)));
                    assert(self@.users == old(self)@.users);
                    assert(self.users@ == old(self).users@);
                    assert(self@.friends == old(self)@.friends);
                }
            },
        }
    }
}

/// Whether two digests are equal, byte for byte.
fn same_digest(a: &ChannelId, b: &ChannelId) -> (r: bool)
    ensures
        r == (a@ == b@),
{
    let mut i: usize = 0;
    while i < 32
        invariant
            0 <= i <= 32,
            a@.len() == 32,
            b@.len() == 32,
            forall|k: int| 0 <= k < i ==> a@[k] == b@[k],
        decreases 32 - i,
    {
        if a[i] != b[i] {
            return false;
        }
        i += 1;
    }
    assert(a@ =~= b@);
    true
}

/// Appending a pair adds its fact to those of a list of pairs.
proof fn lemma_friend_set_push(f: Seq<(String, String)>, e: (String, String))
    ensures
        friend_set(f.push(e)) == friend_set(f).insert((e.0@, e.1@)),
{
    let g = f.push(e);
    assert forall|p: (Seq<char>, Seq<char>)|
        friend_set(g).contains(p) == friend_set(f).insert((e.0@, e.1@)).contains(p) by {
        if friend_set(g).contains(p) {
            let k = choose|k: int| 0 <= k < g.len() && #[trigger] friend_at(g, k) == p;
            if k < f.len() {
                assert(friend_at(f, k) == p);
            }
        }
        if friend_set(f).contains(p) {
            let k = choose|k: int| 0 <= k < f.len() && #[trigger] friend_at(f, k) == p;
            assert(friend_at(g, k) == p);
        }
        if p == (e.0@, e.1@) {
            assert(friend_at(g, f.len() as int) == p);
        }
    }
    assert(friend_set(g) =~= friend_set(f).insert((e.0@, e.1@)));
}

/// Where channels are unique, the log of a channel stands at the one
/// position that holds it.
proof fn lemma_index_unique(m: Seq<(ChannelId, Vec<Message>)>, c: Seq<u8>, k: int)
    requires
        channels_unique(m),
        0 <= k < m.len(),
        channel_at(m, k) == c,
    ensures
        index_of_channel(m, c) == k,
{
    let i = index_of_channel(m, c);
    assert(0 <= i < m.len() && channel_at(m, i) == c);
    if i < k {
        assert(channel_at(m, i) != channel_at(m, k));
    } else if k < i {
        assert(channel_at(m, k) != channel_at(m, i));
    }
}

} // verus!
