//! Reading many keys at once.

use crate::assoc::Name;
use crate::cache::cache::Cache;
use crate::cache::model::{lookup, StoreModel};
use crate::cache::scan::is_expired;
use crate::cache::text::{decode_text, text_of};
use vstd::prelude::*;

verus! {

/// A key with the text it stands for.
#[derive(Clone, Debug)]
pub struct MGetKeyValuePair {
    pub key: String,
    pub value: String,
}

/// The keys and texts of a list of answers.
pub open spec fn answers_view(answers: Seq<MGetKeyValuePair>) -> Seq<(Name, Seq<char>)> {
    Seq::new(answers.len(), |i: int| (answers[i].key@, answers[i].value@))
}

/// What a request asks for: clusters, each with the keys wanted of it.
pub open spec fn requests_view(requests: Seq<(String, Vec<String>)>) -> Seq<(Name, Seq<Name>)> {
    Seq::new(
        requests.len(),
        |i: int| (requests[i].0@, Seq::new(requests[i].1@.len(), |j: int| requests[i].1@[j]@)),
    )
}

/// What a request is answered with: clusters, each with the keys found in
/// it and their texts.
pub open spec fn replies_view(replies: Seq<(String, Vec<MGetKeyValuePair>)>) -> Seq<
    (Name, Seq<(Name, Seq<char>)>),
> {
    Seq::new(replies.len(), |i: int| (replies[i].0@, answers_view(replies[i].1@)))
}

/// The text that answers for `key` of `cluster` at `now`: there is none
/// where the key is not bound, where its time has run out, or where its
/// bytes stand for no text.
pub open spec fn answer_for(store: StoreModel, cluster: Name, key: Name, now: int) -> Option<
    Seq<char>,
> {
    match lookup(store, cluster, key) {
        Some(entry) => if entry.expired(now) {
            None
        } else {
            text_of(entry.value)
        },
        None => None,
    }
}

/// The answers for `keys` of `cluster` at `now`, in the order of `keys`:
/// keys without an answer are passed over.
pub open spec fn answers_for(store: StoreModel, cluster: Name, keys: Seq<Name>, now: int) -> Seq<
    (Name, Seq<char>),
>
    decreases keys.len(),
{
    if keys.len() == 0 {
        Seq::empty()
    } else {
        match answer_for(store, cluster, keys.last(), now) {
            Some(text) => answers_for(store, cluster, keys.drop_last(), now).push(
                (keys.last(), text),
            ),
            None => answers_for(store, cluster, keys.drop_last(), now),
        }
    }
}

/// The replies to `requests` at `now`: one for each cluster asked for, in
/// the order of the request.
pub open spec fn replies_for(store: StoreModel, requests: Seq<(Name, Seq<Name>)>, now: int) -> Seq<
    (Name, Seq<(Name, Seq<char>)>),
> {
    Seq::new(
        requests.len(),
        |i: int| (requests[i].0, answers_for(store, requests[i].0, requests[i].1, now)),
    )
}

/// Reading many keys at once.
pub trait MGet {
    /// For each cluster asked for, the keys found in it with their texts. A
    /// cluster that the store has not is answered with no keys.
    fn mget(&self, cluster_dic: Vec<(String, Vec<String>)>) -> Vec<(String, Vec<MGetKeyValuePair>)>;
}

impl Cache {
    /// The answers for `keys` of `cluster` at the moment `now`.
    pub fn answers_at(&self, cluster: &str, keys: Vec<String>, now: u64) -> (answers: Vec<
        MGetKeyValuePair,
    >)
        ensures
            answers_view(answers@) == answers_for(
                self@.store,
                cluster@,
                Seq::new(keys@.len(), |j: int| keys@[j]@),
                now as int,
            ),
    {
        let ghost wanted = Seq::new(keys@.len(), |j: int| keys@[j]@);
        let mut answers: Vec<MGetKeyValuePair> = Vec::new();
        assert(wanted.take(0) =~= Seq::empty());
        assert(answers_view(answers@) =~= Seq::empty());
        for key in it: keys.into_iter()
            invariant
                it.seq() == keys@,
                wanted == Seq::new(keys@.len(), |j: int| keys@[j]@),
                answers_view(answers@) == answers_for(
                    self@.store,
                    cluster@,
                    wanted.take(it.index() as int),
                    now as int,
                ),
        {
            proof {
                let head = wanted.take(it.index() + 1);
                assert(head.drop_last() =~= wanted.take(it.index() as int));
                assert(head.last() == key@);
            }
            match self.peek(cluster, key.as_str()) {
                Some(entry) => {
                    if !is_expired(entry, now) {
                        match decode_text(&entry.value) {
                            Some((_, text)) => {
                                let ghost so_far = answers_view(answers@);
                                answers.push(MGetKeyValuePair { key, value: text });
                                assert(answers_view(answers@) =~= so_far.push((key@, text@)));
                            },
                            None => {},
                        }
                    }
                },
                None => {},
            }
        }
        assert(wanted.take(keys@.len() as int) =~= wanted);
        answers
    }

    /// The replies to a request at the moment `now`. Nothing is swept: an
    /// entry whose time has run out is passed over and stays where it is.
    pub fn mget_at(&self, cluster_dic: Vec<(String, Vec<String>)>, now: u64) -> (replies: Vec<
        (String, Vec<MGetKeyValuePair>),
    >)
        ensures
            replies_view(replies@) == replies_for(
                self@.store,
                requests_view(cluster_dic@),
                now as int,
            ),
    {
        let ghost asked = requests_view(cluster_dic@);
        let mut replies: Vec<(String, Vec<MGetKeyValuePair>)> = Vec::new();
        assert(replies_view(replies@) =~= replies_for(self@.store, asked, now as int).take(0));
        for request in it: cluster_dic.into_iter()
            invariant
                it.seq() == cluster_dic@,
                asked == requests_view(cluster_dic@),
                replies_view(replies@) == replies_for(self@.store, asked, now as int).take(
                    it.index() as int,
                ),
        {
            let (cluster, keys) = request;
            let answers = self.answers_at(cluster.as_str(), keys, now);
            let ghost so_far = replies_view(replies@);
            replies.push((cluster, answers));
            proof {
                assert(replies_view(replies@) =~= so_far.push((cluster@, answers_view(answers@))));
                assert(asked[it.index() as int].1 =~= Seq::new(keys@.len(), |j: int| keys@[j]@));
                assert(replies_view(replies@) =~= replies_for(self@.store, asked, now as int).take(
                    it.index() + 1,
                ));
            }
        }
        assert(replies_for(self@.store, asked, now as int).take(cluster_dic@.len() as int)
            =~= replies_for(self@.store, asked, now as int));
        replies
    }
}

impl MGet for Cache {
    /// The replies to a request at the moment the engine's clock shows.
    fn mget(&self, cluster_dic: Vec<(String, Vec<String>)>) -> (replies: Vec<
        (String, Vec<MGetKeyValuePair>),
    >)
        ensures
            exists|now: u64|
                self@.seen <= now && replies_view(replies@) == replies_for(
                    self@.store,
                    requests_view(cluster_dic@),
                    now as int,
                ),
    {
        let now = self.clock();
        self.mget_at(cluster_dic, now)
    }
}

} // verus!
