//! Properties that hold across calls, stated over the transition functions
//! that the operations' contracts are written in.

use vstd::prelude::*;
use crate::channel::channel_of;
use crate::contract::{
    add_friend_step, has_friends, messages_step, register_step, send_step, ChatError, ContractView,
    MessageView,
};

verus! {

/// Registering an account twice yields `true` and then `false`; the first
/// call adds exactly one account and the second changes nothing.
pub proof fn register_twice(v: ContractView, c: Seq<char>)
    requires
        !v.users.contains(c),
    ensures
        register_step(v, c).1,
        register_step(v, c).0.users.len() == v.users.len() + 1,
        !register_step(register_step(v, c).0, c).1,
        register_step(register_step(v, c).0, c).0 == register_step(v, c).0,
{
    assert(register_step(v, c).0.users.last() == c);
}

/// Once `a` has added `b` as a friend, each counts the other as a friend, and
/// adding the friendship again succeeds and changes nothing.
pub proof fn add_friend_symmetric(v: ContractView, a: Seq<char>, b: Seq<char>)
    requires
        add_friend_step(v, a, b) is Ok,
    ensures
        add_friend_step(v, a, b)->Ok_0.friends.contains((a, b)),
        add_friend_step(v, a, b)->Ok_0.friends.contains((b, a)),
        add_friend_step(add_friend_step(v, a, b)->Ok_0, a, b) == add_friend_step(v, a, b),
{
    let w = add_friend_step(v, a, b)->Ok_0;
    assert(w.friends.insert((a, b)).insert((b, a)) =~= w.friends);
}

/// The channel of an ordered pair depends on that pair alone.
pub proof fn channel_deterministic(a1: Seq<char>, b1: Seq<char>, a2: Seq<char>, b2: Seq<char>)
    requires
        a1 == a2,
        b1 == b2,
    ensures
        channel_of(a1, b1) == channel_of(a2, b2),
{
}

/// Sending is refused with `Unauthorized` from an unregistered account, with
/// `InvalidTarget` to an unregistered one, and with `NotFriend` (or
/// `NoFriendsAtAll`, where the sender has no friend at all) to one that is not
/// a friend; a send that succeeds joins two registered friends.
pub proof fn send_gated(v: ContractView, a: Seq<char>, b: Seq<char>, content: Seq<char>, now: u64)
    ensures
        !v.users.contains(a) ==> send_step(v, a, b, content, now) == Err::<
            (ContractView, Seq<u8>),
            ChatError,
        >(ChatError::Unauthorized),
        v.users.contains(a) && !v.users.contains(b) ==> send_step(v, a, b, content, now) == Err::<
            (ContractView, Seq<u8>),
            ChatError,
        >(ChatError::InvalidTarget),
        v.users.contains(a) && v.users.contains(b) && !has_friends(v, a) ==> send_step(
            v,
            a,
            b,
            content,
            now,
        ) == Err::<(ContractView, Seq<u8>), ChatError>(ChatError::NoFriendsAtAll),
        v.users.contains(a) && v.users.contains(b) && has_friends(v, a) && !v.friends.contains(
            (a, b),
        ) ==> send_step(v, a, b, content, now) == Err::<(ContractView, Seq<u8>), ChatError>(
            ChatError::NotFriend,
        ),
        send_step(v, a, b, content, now) is Ok ==> v.users.contains(a) && v.users.contains(b)
            && v.friends.contains((a, b)),
{
}

/// A message with no content is refused: with `EmptyMessage` where sender and
/// receiver are registered friends, and with an earlier error otherwise.
pub proof fn empty_message_refused(v: ContractView, a: Seq<char>, b: Seq<char>, now: u64)
    ensures
        send_step(v, a, b, Seq::<char>::empty(), now) is Err,
        v.users.contains(a) && v.users.contains(b) && v.friends.contains((a, b)) ==> send_step(
            v,
            a,
            b,
            Seq::<char>::empty(),
            now,
        ) == Err::<(ContractView, Seq<u8>), ChatError>(ChatError::EmptyMessage),
{
}

/// After three messages sent in turn on one channel, the first page of three
/// holds them newest first, and the page of one after skipping one holds the
/// second.
pub proof fn messages_newest_first(
    v: ContractView,
    a: Seq<char>,
    b: Seq<char>,
    c1: Seq<char>,
    c2: Seq<char>,
    c3: Seq<char>,
    t1: u64,
    t2: u64,
    t3: u64,
)
    requires
        send_step(v, a, b, c1, t1) is Ok,
        send_step(send_step(v, a, b, c1, t1)->Ok_0.0, a, b, c2, t2) is Ok,
        send_step(send_step(send_step(v, a, b, c1, t1)->Ok_0.0, a, b, c2, t2)->Ok_0.0, a, b, c3, t3) is Ok,
    ensures
        ({
            let w = send_step(
                send_step(send_step(v, a, b, c1, t1)->Ok_0.0, a, b, c2, t2)->Ok_0.0,
                a,
                b,
                c3,
                t3,
            )->Ok_0.0;
            let m1 = MessageView { author: a, content: c1, created_at_ms: t1 };
            let m2 = MessageView { author: a, content: c2, created_at_ms: t2 };
            let m3 = MessageView { author: a, content: c3, created_at_ms: t3 };
            &&& messages_step(w, a, b, 3, 0) == Ok::<Seq<MessageView>, ChatError>(seq![m3, m2, m1])
            &&& messages_step(w, a, b, 1, 1) == Ok::<Seq<MessageView>, ChatError>(seq![m2])
        }),
{
    let c = channel_of(a, b);
    let w1 = send_step(v, a, b, c1, t1)->Ok_0.0;
    let w2 = send_step(w1, a, b, c2, t2)->Ok_0.0;
    let w = send_step(w2, a, b, c3, t3)->Ok_0.0;
    let m1 = MessageView { author: a, content: c1, created_at_ms: t1 };
    let m2 = MessageView { author: a, content: c2, created_at_ms: t2 };
    let m3 = MessageView { author: a, content: c3, created_at_ms: t3 };
    let l = if v.logs.contains_key(c) { v.logs[c] } else { Seq::<MessageView>::empty() };
    assert(w1.logs[c] == l.push(m1));
    assert(w2.logs[c] == l.push(m1).push(m2));
    let s = l.push(m1).push(m2).push(m3);
    assert(w.logs[c] == s);
    let n = s.len();
    assert(s[n - 1] == m3 && s[n - 2] == m2 && s[n - 3] == m1);
    assert(crate::page::page(s, 3, 0) =~= seq![m3, m2, m1]);
    assert(crate::page::page(s, 1, 1) =~= seq![m2]);
}

} // verus!
