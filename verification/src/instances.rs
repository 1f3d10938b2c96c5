use crate::error::Error;
use crate::key::deduped;
use crate::key::distinct;
use crate::key::is_key_expr;
use crate::key::is_simple;
use crate::key::lemma_deduped_exact;
use crate::key::texts;
use crate::key::KeyExpr;
use crate::path::discovery_path;
use crate::path::lemma_leaves_simply_parted;
use crate::path::topic_key;
use vstd::prelude::*;
use vstd::utf8::decode_utf8;
use vstd::utf8::encode_utf8;
use vstd::utf8::encode_utf8_decode_utf8;
use vstd::utf8::encode_utf8_valid_utf8;
use vstd::utf8::valid_utf8;

verus! {

/// Reads `bytes` as UTF-8 with `std::str::from_utf8`, which gives the text
/// that the bytes encode where they are valid UTF-8, and an error, here
/// `None`, where they are not.
#[verifier::external_body]
fn utf8_text<'a>(bytes: &'a [u8]) -> (r: Option<&'a str>)
    ensures
        match r {
            Some(text) => valid_utf8(bytes@) && text@ == decode_utf8(bytes@),
            None => !valid_utf8(bytes@),
        },
{
    std::str::from_utf8(bytes).ok()
}

/// The bytes of a reply, or nothing for a reply that reports an error.
pub open spec fn reply_bytes(reply: Option<Vec<u8>>) -> Option<Seq<u8>> {
    match reply {
        Some(bytes) => Some(bytes@),
        None => None,
    }
}

/// The replies of one query round as contracts speak of them.
pub open spec fn replies_bytes(replies: Seq<Option<Vec<u8>>>) -> Seq<Option<Seq<u8>>> {
    replies.map_values(|reply: Option<Vec<u8>>| reply_bytes(reply))
}

/// The instance identifier that a reply names: the text of its bytes, where
/// the reply is no error, its bytes are UTF-8 and the transport accepts the
/// text as a key expression.
pub open spec fn instance_of(reply: Option<Seq<u8>>) -> Option<Seq<char>> {
    match reply {
        Some(bytes) => if valid_utf8(bytes) && is_key_expr(decode_utf8(bytes)) {
            Some(decode_utf8(bytes))
        } else {
            None
        },
        None => None,
    }
}

/// The instance identifiers that `replies` name, one for each reply that
/// names one, in the order of the replies.
pub open spec fn named(replies: Seq<Option<Seq<u8>>>) -> Seq<Seq<char>>
    decreases replies.len(),
{
    if replies.len() == 0 {
        Seq::empty()
    } else {
        let before = named(replies.drop_last());
        match instance_of(replies.last()) {
            Some(id) => before.push(id),
            None => before,
        }
    }
}

/// The instance identifiers that `replies` name, each once, in the order in
/// which they were first named.
pub open spec fn discovered(replies: Seq<Option<Seq<u8>>>) -> Seq<Seq<char>> {
    deduped(named(replies))
}

/// The instance identifier that `reply` names, if it names one.
pub fn instance_of_reply(reply: &Option<Vec<u8>>) -> (r: Option<KeyExpr>)
    ensures
        match r {
            Some(key) => instance_of(reply_bytes(*reply)) == Some(key@),
            None => instance_of(reply_bytes(*reply)) is None,
        },
{
    match reply {
        Some(bytes) => match utf8_text(bytes.as_slice()) {
            Some(text) => match KeyExpr::new(text) {
                Ok(key) => Some(key),
                Err(_) => None,
            },
            None => None,
        },
        None => None,
    }
}

/// The instance identifiers that `replies` name, one for each reply that
/// names one, in the order of the replies.
pub fn instances_of_replies(replies: &Vec<Option<Vec<u8>>>) -> (r: Vec<KeyExpr>)
    ensures
        texts(r@) == named(replies_bytes(replies@)),
{
    let ghost all = replies_bytes(replies@);
    let mut found: Vec<KeyExpr> = Vec::new();
    let mut i: usize = 0;
    proof {
        assert(all.take(0) =~= Seq::empty());
        assert(texts(found@) =~= Seq::empty());
    }
    while i < replies.len()
        invariant
            i <= replies.len(),
            all == replies_bytes(replies@),
            texts(found@) == named(all.take(i as int)),
        decreases replies.len() - i,
    {
        proof {
            assert(all.take(i + 1).drop_last() =~= all.take(i as int));
            assert(all.take(i + 1).last() == reply_bytes(replies@[i as int]));
        }
        let ghost before = found@;
        match instance_of_reply(&replies[i]) {
            Some(key) => {
                found.push(key);
                assert(texts(found@) =~= texts(before).push(key@));
            },
            None => {},
        }
        i = i + 1;
    }
    proof {
        assert(all.take(replies.len() as int) =~= all);
    }
    found
}

/// The owners that answered one discovery query: the instance identifiers
/// that `replies` name, each once, in the order in which they were first
/// named.
pub fn query_instances_async(replies: &Vec<Option<Vec<u8>>>) -> (r: Vec<KeyExpr>)
    ensures
        texts(r@) == discovered(replies_bytes(replies@)),
{
    let named = instances_of_replies(replies);
    distinct(&named)
}

/// The discovery of the owners of one name in one workspace.
#[derive(Debug)]
pub struct ZSharedInstances {
    path: KeyExpr,
}

impl ZSharedInstances {
    /// The text of the topic pattern to query.
    pub closed spec fn pattern(&self) -> Seq<char> {
        self.path@
    }

    /// The discovery of the owners of `name` in `workspace`, which queries
    /// `{workspace}/{name}/*/instance`. Fails with `Error::Address` exactly
    /// where the transport does not accept that pattern, which is never so
    /// where `workspace` and `name` are simple.
    pub fn new(workspace: &KeyExpr, name: &KeyExpr) -> (r: Result<Self, Error>)
        ensures
            match r {
                Ok(instances) => {
                    &&& instances.pattern() == discovery_path(workspace@, name@)
                    &&& is_key_expr(instances.pattern())
                },
                Err(e) => e == Error::Address && !is_key_expr(
                    discovery_path(workspace@, name@),
                ),
            },
            is_simple(workspace@) && is_simple(name@) ==> r is Ok,
    {
        proof {
            lemma_leaves_simply_parted();
        }
        match topic_key(workspace.as_str(), name.as_str(), "*", "instance") {
            Ok(path) => Ok(ZSharedInstances { path }),
            Err(e) => Err(e),
        }
    }

    /// The topic pattern to query.
    pub fn path(&self) -> (r: &KeyExpr)
        ensures
            r@ == self.pattern(),
    {
        &self.path
    }

    /// Goes through the owners that answered one query round with
    /// `replies`.
    pub fn iter(&self, replies: &Vec<Option<Vec<u8>>>) -> (r: ZSharedInstancesIter)
        ensures
            r@ == discovered(replies_bytes(replies@)),
    {
        ZSharedInstancesIter::new(replies)
    }
}

/// The owners that answered one discovery query, one after the other.
#[derive(Debug)]
pub struct ZSharedInstancesIter {
    found: Vec<KeyExpr>,
    next: usize,
}

impl View for ZSharedInstancesIter {
    type V = Seq<Seq<char>>;

    /// The instance identifiers that are still to come.
    closed spec fn view(&self) -> Seq<Seq<char>> {
        texts(self.found@).skip(self.next as int)
    }
}

impl ZSharedInstancesIter {
    #[verifier::type_invariant]
    spec fn within(self) -> bool {
        self.next <= self.found.len()
    }

    /// Goes through the instance identifiers that `replies` name, each
    /// once, in the order in which they were first named.
    pub fn new(replies: &Vec<Option<Vec<u8>>>) -> (r: Self)
        ensures
            r@ == discovered(replies_bytes(replies@)),
    {
        let found = query_instances_async(replies);
        proof {
            assert(texts(found@).skip(0) =~= texts(found@));
        }
        ZSharedInstancesIter { found, next: 0 }
    }

    /// The next instance identifier, or `None` when all have been given.
    pub fn next(&mut self) -> (r: Option<KeyExpr>)
        ensures
            match r {
                Some(key) => {
                    &&& old(self)@.len() > 0
                    &&& key@ == old(self)@[0]
                    &&& final(self)@ == old(self)@.drop_first()
                },
                None => old(self)@.len() == 0 && final(self)@ == old(self)@,
            },
    {
        proof {
            use_type_invariant(&*self);
        }
        if self.next < self.found.len() {
            let key = self.found[self.next].clone();
            proof {
                let all = texts(self.found@);
                assert(all.skip(self.next as int).drop_first() =~= all.skip(self.next + 1));
            }
            self.next = self.next + 1;
            Some(key)
        } else {
            None
        }
    }
}

/// The identifiers that `named` gives are exactly those that a reply names.
pub proof fn lemma_named_exact(replies: Seq<Option<Seq<u8>>>)
    ensures
        forall|id: Seq<char>|
            named(replies).contains(id) <==> exists|i: int|
                0 <= i < replies.len() && #[trigger] instance_of(replies[i]) == Some(id),
    decreases replies.len(),
{
    if replies.len() > 0 {
        let front = replies.drop_last();
        lemma_named_exact(front);
        let before = named(front);
        let now = named(replies);
        assert forall|id: Seq<char>| now.contains(id) implies exists|i: int|
            0 <= i < replies.len() && #[trigger] instance_of(replies[i]) == Some(id) by {
            if before.contains(id) {
                let i = choose|i: int|
                    0 <= i < front.len() && #[trigger] instance_of(front[i]) == Some(id);
                assert(instance_of(replies[i]) == Some(id));
            } else {
                let k = choose|k: int| 0 <= k < now.len() && now[k] == id;
                assert(now == before.push(instance_of(replies.last()).unwrap()));
                assert(instance_of(replies[replies.len() - 1]) == Some(id));
            }
        }
        assert forall|id: Seq<char>|
            (exists|i: int|
                0 <= i < replies.len() && #[trigger] instance_of(replies[i]) == Some(
                    id,
                )) implies now.contains(id) by {
            let i = choose|i: int|
                0 <= i < replies.len() && #[trigger] instance_of(replies[i]) == Some(id);
            if i < front.len() {
                assert(instance_of(front[i]) == Some(id));
                assert(before.contains(id));
                let k = choose|k: int| 0 <= k < before.len() && before[k] == id;
                assert(now[k] == id);
            } else {
                assert(now == before.push(id));
                assert(now[before.len() as int] == id);
            }
        }
    }
}

/// Every identifier that discovery gives was named by a reply, every
/// identifier that a reply names is given, and none is given twice.
pub proof fn lemma_discovered_exact(replies: Seq<Option<Seq<u8>>>)
    ensures
        discovered(replies).no_duplicates(),
        forall|id: Seq<char>|
            discovered(replies).contains(id) <==> exists|i: int|
                0 <= i < replies.len() && #[trigger] instance_of(replies[i]) == Some(id),
{
    lemma_named_exact(replies);
    lemma_deduped_exact(named(replies));
    assert forall|id: Seq<char>| discovered(replies).contains(id) <==> exists|i: int|
        0 <= i < replies.len() && #[trigger] instance_of(replies[i]) == Some(id) by {
        assert(discovered(replies).contains(id) <==> named(replies).contains(id));
    }
}

/// A live owner is found by what it replies: the UTF-8 bytes of an
/// identifier that the transport accepts name that identifier.
pub proof fn lemma_reply_names_instance(id: Seq<char>)
    requires
        is_key_expr(id),
    ensures
        instance_of(Some(encode_utf8(id))) == Some(id),
{
    encode_utf8_valid_utf8(id);
    encode_utf8_decode_utf8(id);
}

/// What a group of owners answers to one discovery query. Each owner is
/// given by whether it is live and by its instance identifier; a live owner
/// answers with its identifier in UTF-8, a closed owner does not answer.
pub open spec fn answers(owners: Seq<(bool, Seq<char>)>) -> Seq<Option<Seq<u8>>>
    decreases owners.len(),
{
    if owners.len() == 0 {
        Seq::empty()
    } else {
        let before = answers(owners.drop_last());
        if owners.last().0 {
            before.push(Some(encode_utf8(owners.last().1)))
        } else {
            before
        }
    }
}

/// Discovery finds the owners that are live, and no others: of the answers
/// of a group of owners it makes exactly the identifiers of those that are
/// live, each once.
pub proof fn lemma_discovery_finds_live_owners(owners: Seq<(bool, Seq<char>)>)
    requires
        forall|i: int| 0 <= i < owners.len() ==> is_key_expr((#[trigger] owners[i]).1),
    ensures
        discovered(answers(owners)).no_duplicates(),
        forall|id: Seq<char>|
            discovered(answers(owners)).contains(id) <==> exists|i: int|
                0 <= i < owners.len() && (#[trigger] owners[i]).0 && owners[i].1 == id,
{
    lemma_answers_name_live_owners(owners);
    lemma_deduped_exact(named(answers(owners)));
    assert forall|id: Seq<char>| discovered(answers(owners)).contains(id) <==> exists|i: int|
        0 <= i < owners.len() && (#[trigger] owners[i]).0 && owners[i].1 == id by {
        assert(discovered(answers(owners)).contains(id) <==> named(answers(owners)).contains(id));
    }
}

/// The answers of a group of owners name exactly the identifiers of those
/// that are live.
proof fn lemma_answers_name_live_owners(owners: Seq<(bool, Seq<char>)>)
    requires
        forall|i: int| 0 <= i < owners.len() ==> is_key_expr((#[trigger] owners[i]).1),
    ensures
        forall|id: Seq<char>|
            named(answers(owners)).contains(id) <==> exists|i: int|
                0 <= i < owners.len() && (#[trigger] owners[i]).0 && owners[i].1 == id,
    decreases owners.len(),
{
    if owners.len() > 0 {
        let front = owners.drop_last();
        let last = owners.last();
        assert(last == owners[owners.len() - 1]);
        assert forall|i: int| 0 <= i < front.len() implies is_key_expr((#[trigger] front[i]).1) by {
            assert(front[i] == owners[i]);
        }
        lemma_answers_name_live_owners(front);
        let before = named(answers(front));
        let now = named(answers(owners));
        if last.0 {
            lemma_reply_names_instance(last.1);
            assert(answers(owners).drop_last() =~= answers(front));
            assert(now == before.push(last.1));
        } else {
            assert(now == before);
        }
        assert forall|id: Seq<char>| now.contains(id) implies exists|i: int|
            0 <= i < owners.len() && (#[trigger] owners[i]).0 && owners[i].1 == id by {
            if before.contains(id) {
                let i = choose|i: int|
                    0 <= i < front.len() && (#[trigger] front[i]).0 && front[i].1 == id;
                assert(owners[i] == front[i]);
            } else {
                let k = choose|k: int| 0 <= k < now.len() && now[k] == id;
                assert(last.0 && last.1 == id);
            }
        }
        assert forall|id: Seq<char>|
            (exists|i: int|
                0 <= i < owners.len() && (#[trigger] owners[i]).0 && owners[i].1
                    == id) implies now.contains(id) by {
            let i = choose|i: int|
                0 <= i < owners.len() && (#[trigger] owners[i]).0 && owners[i].1 == id;
            if i < front.len() {
                assert(front[i] == owners[i]);
                assert(before.contains(id));
                let k = choose|k: int| 0 <= k < before.len() && before[k] == id;
                assert(now[k] == id);
            } else {
                assert(now[before.len() as int] == id);
            }
        }
    }
}

} // verus!
