use crate::error::Error;
use crate::key::is_key_expr;
use crate::key::is_simple;
use crate::key::is_well_parted;
use crate::key::parted_at;
use crate::key::simple_at;
use crate::key::KeyExpr;
use vstd::prelude::*;
use vstd::string::StringExecFns;

verus! {

/// The topic `{workspace}/{name}/{instance}/{leaf}`.
pub open spec fn topic(
    workspace: Seq<char>,
    name: Seq<char>,
    instance: Seq<char>,
    leaf: Seq<char>,
) -> Seq<char> {
    workspace + "/"@ + name + "/"@ + instance + "/"@ + leaf
}

/// The topic on which an owner answers snapshot queries.
pub open spec fn data_path(workspace: Seq<char>, instance: Seq<char>, name: Seq<char>) -> Seq<
    char,
> {
    topic(workspace, name, instance, "data"@)
}

/// The topic on which an owner broadcasts its commands.
pub open spec fn update_path(workspace: Seq<char>, instance: Seq<char>, name: Seq<char>) -> Seq<
    char,
> {
    topic(workspace, name, instance, "update"@)
}

/// The topic on which an owner answers with its own instance identifier.
pub open spec fn instance_path(workspace: Seq<char>, instance: Seq<char>, name: Seq<char>) -> Seq<
    char,
> {
    topic(workspace, name, instance, "instance"@)
}

/// The pattern that matches the instance topic of every owner of `name` in
/// `workspace`.
pub open spec fn discovery_path(workspace: Seq<char>, name: Seq<char>) -> Seq<char> {
    instance_path(workspace, "*"@, name)
}

/// Whether `text` is simple and none of its chunks is empty.
pub open spec fn simply_parted(text: Seq<char>) -> bool {
    is_simple(text) && is_well_parted(text)
}

/// Writes out the topic `{workspace}/{name}/{instance}/{leaf}`, whether or
/// not the transport would accept it.
pub fn topic_text(workspace: &str, name: &str, instance: &str, leaf: &str) -> (r: String)
    ensures
        r@ == topic(workspace@, name@, instance@, leaf@),
{
    let mut text = String::from_str(workspace);
    text.append("/");
    text.append(name);
    text.append("/");
    text.append(instance);
    text.append("/");
    text.append(leaf);
    text
}

/// The key expression `{workspace}/{name}/{instance}/{leaf}`. Fails with
/// `Error::Address` exactly where the transport does not accept that text,
/// which is never so where the four parts are simple and have no empty
/// chunk.
pub fn topic_key(workspace: &str, name: &str, instance: &str, leaf: &str) -> (r: Result<
    KeyExpr,
    Error,
>)
    ensures
        match r {
            Ok(key) => key@ == topic(workspace@, name@, instance@, leaf@) && is_key_expr(key@),
            Err(e) => e == Error::Address && !is_key_expr(
                topic(workspace@, name@, instance@, leaf@),
            ),
        },
        simply_parted(workspace@) && simply_parted(name@) && simply_parted(instance@)
            && simply_parted(leaf@) ==> r is Ok,
{
    let text = topic_text(workspace, name, instance, leaf);
    proof {
        if simply_parted(workspace@) && simply_parted(name@) && simply_parted(instance@)
            && simply_parted(leaf@) {
            lemma_topic_simply_parted(workspace@, name@, instance@, leaf@);
        }
    }
    KeyExpr::new(text.as_str())
}

/// The snapshot topic of the owner `instance` of `name` in `workspace`:
/// `{workspace}/{name}/{instance}/data`. Fails with `Error::Address` exactly
/// where the transport does not accept that text, which is never so where
/// the three key expressions are simple.
pub fn get_data_path(workspace: &KeyExpr, instance: &KeyExpr, name: &KeyExpr) -> (r: Result<
    KeyExpr,
    Error,
>)
    ensures
        match r {
            Ok(key) => key@ == data_path(workspace@, instance@, name@) && is_key_expr(key@),
            Err(e) => e == Error::Address && !is_key_expr(
                data_path(workspace@, instance@, name@),
            ),
        },
        is_simple(workspace@) && is_simple(instance@) && is_simple(name@) ==> r is Ok,
{
    proof {
        lemma_leaves_simply_parted();
    }
    topic_key(workspace.as_str(), name.as_str(), instance.as_str(), "data")
}

/// The command topic of the owner `instance` of `name` in `workspace`:
/// `{workspace}/{name}/{instance}/update`. Fails with `Error::Address`
/// exactly where the transport does not accept that text, which is never so
/// where the three key expressions are simple.
pub fn get_update_path(workspace: &KeyExpr, instance: &KeyExpr, name: &KeyExpr) -> (r: Result<
    KeyExpr,
    Error,
>)
    ensures
        match r {
            Ok(key) => key@ == update_path(workspace@, instance@, name@) && is_key_expr(key@),
            Err(e) => e == Error::Address && !is_key_expr(
                update_path(workspace@, instance@, name@),
            ),
        },
        is_simple(workspace@) && is_simple(instance@) && is_simple(name@) ==> r is Ok,
{
    proof {
        lemma_leaves_simply_parted();
    }
    topic_key(workspace.as_str(), name.as_str(), instance.as_str(), "update")
}

/// The identification topic of the owner `instance` of `name` in
/// `workspace`: `{workspace}/{name}/{instance}/instance`. Fails with
/// `Error::Address` exactly where the transport does not accept that text,
/// which is never so where the three key expressions are simple.
pub fn get_instance_path(workspace: &KeyExpr, instance: &KeyExpr, name: &KeyExpr) -> (r: Result<
    KeyExpr,
    Error,
>)
    ensures
        match r {
            Ok(key) => key@ == instance_path(workspace@, instance@, name@) && is_key_expr(key@),
            Err(e) => e == Error::Address && !is_key_expr(
                instance_path(workspace@, instance@, name@),
            ),
        },
        is_simple(workspace@) && is_simple(instance@) && is_simple(name@) ==> r is Ok,
{
    proof {
        lemma_leaves_simply_parted();
    }
    topic_key(workspace.as_str(), name.as_str(), instance.as_str(), "instance")
}

/// Two simple texts with no empty chunk, joined by `/`, are one such text.
pub proof fn lemma_join_simply_parted(head: Seq<char>, tail: Seq<char>)
    requires
        simply_parted(head),
        simply_parted(tail),
    ensures
        simply_parted(head + "/"@ + tail),
{
    reveal_strlit("/");
    let joined = head + "/"@ + tail;
    let at = head.len() as int;
    assert(joined.len() == head.len() + 1 + tail.len());
    assert forall|i: int| 0 <= i < joined.len() implies #[trigger] simple_at(joined, i) by {
        if i < at {
            assert(simple_at(head, i));
            assert(joined[i] == head[i]);
            if i > 0 {
                assert(joined[i - 1] == head[i - 1]);
            }
            if i < at - 1 {
                assert(joined[i + 1] == head[i + 1]);
            } else {
                assert(joined[i + 1] == '/');
            }
        } else if i == at {
            assert(joined[i] == '/');
        } else {
            let j = i - at - 1;
            assert(simple_at(tail, j));
            assert(joined[i] == tail[j]);
            if j > 0 {
                assert(joined[i - 1] == tail[j - 1]);
            } else {
                assert(joined[i - 1] == '/');
            }
            if j < tail.len() - 1 {
                assert(joined[i + 1] == tail[j + 1]);
            }
        }
    }
    assert forall|i: int| 0 <= i < joined.len() - 1 implies #[trigger] parted_at(joined, i) by {
        if i < at - 1 {
            assert(parted_at(head, i));
            assert(joined[i] == head[i]);
            assert(joined[i + 1] == head[i + 1]);
        } else if i == at - 1 {
            assert(joined[i] == head[at - 1]);
        } else if i == at {
            assert(joined[i + 1] == tail[0]);
        } else {
            let j = i - at - 1;
            assert(parted_at(tail, j));
            assert(joined[i] == tail[j]);
            assert(joined[i + 1] == tail[j + 1]);
        }
    }
    assert(joined[0] == head[0]);
    assert(joined[joined.len() - 1] == tail[tail.len() - 1]);
}

/// A topic made of four simple texts with no empty chunk is such a text
/// itself.
pub proof fn lemma_topic_simply_parted(
    workspace: Seq<char>,
    name: Seq<char>,
    instance: Seq<char>,
    leaf: Seq<char>,
)
    requires
        simply_parted(workspace),
        simply_parted(name),
        simply_parted(instance),
        simply_parted(leaf),
    ensures
        simply_parted(topic(workspace, name, instance, leaf)),
{
    lemma_join_simply_parted(workspace, name);
    lemma_join_simply_parted(workspace + "/"@ + name, instance);
    lemma_join_simply_parted(workspace + "/"@ + name + "/"@ + instance, leaf);
}

/// The last chunks of the topics, and the chunk that stands for every
/// instance, are simple texts of one chunk.
pub proof fn lemma_leaves_simply_parted()
    ensures
        simply_parted("data"@),
        simply_parted("update"@),
        simply_parted("instance"@),
        simply_parted("*"@),
{
    reveal_strlit("data");
    reveal_strlit("update");
    reveal_strlit("instance");
    reveal_strlit("*");
    assert forall|i: int| 0 <= i < "data"@.len() implies #[trigger] simple_at("data"@, i) by {}
    assert forall|i: int| 0 <= i < "update"@.len() implies #[trigger] simple_at("update"@, i) by {}
    assert forall|i: int| 0 <= i < "instance"@.len() implies #[trigger] simple_at(
        "instance"@,
        i,
    ) by {}
    assert forall|i: int| 0 <= i < "*"@.len() implies #[trigger] simple_at("*"@, i) by {}
    assert forall|i: int| 0 <= i < "data"@.len() - 1 implies #[trigger] parted_at("data"@, i) by {}
    assert forall|i: int| 0 <= i < "update"@.len() - 1 implies #[trigger] parted_at(
        "update"@,
        i,
    ) by {}
    assert forall|i: int| 0 <= i < "instance"@.len() - 1 implies #[trigger] parted_at(
        "instance"@,
        i,
    ) by {}
}

/// The three topics of one address are three different texts.
pub proof fn lemma_paths_distinct(workspace: Seq<char>, instance: Seq<char>, name: Seq<char>)
    ensures
        data_path(workspace, instance, name) != update_path(workspace, instance, name),
        data_path(workspace, instance, name) != instance_path(workspace, instance, name),
        update_path(workspace, instance, name) != instance_path(workspace, instance, name),
{
    reveal_strlit("data");
    reveal_strlit("update");
    reveal_strlit("instance");
    let stem = workspace + "/"@ + name + "/"@ + instance + "/"@;
    assert(data_path(workspace, instance, name).len() == stem.len() + 4);
    assert(update_path(workspace, instance, name).len() == stem.len() + 6);
    assert(instance_path(workspace, instance, name).len() == stem.len() + 8);
}

/// Two owners of one name in one workspace share a topic only if they have
/// the same instance identifier.
pub proof fn lemma_paths_tell_instances_apart(
    workspace: Seq<char>,
    name: Seq<char>,
    first: Seq<char>,
    second: Seq<char>,
    leaf: Seq<char>,
)
    requires
        topic(workspace, name, first, leaf) == topic(workspace, name, second, leaf),
    ensures
        first == second,
{
    let stem = workspace + "/"@ + name + "/"@;
    let tail = "/"@ + leaf;
    let a = topic(workspace, name, first, leaf);
    let b = topic(workspace, name, second, leaf);
    assert(a =~= stem + first + tail);
    assert(b =~= stem + second + tail);
    assert(a.len() == b.len());
    assert(first.len() == second.len());
    assert forall|i: int| 0 <= i < first.len() implies first[i] == second[i] by {
        assert(a[stem.len() + i] == first[i]);
        assert(b[stem.len() + i] == second[i]);
    }
    assert(first =~= second);
}

} // verus!
