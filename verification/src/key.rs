use crate::error::Error;
use vstd::prelude::*;
use vstd::string::StringExecFns;

verus! {

/// Whether the transport accepts `text` as a key expression: what
/// `zenoh::key_expr::KeyExpr::new` decides for that text.
pub uninterp spec fn is_key_expr(text: Seq<char>) -> bool;

/// Whether `text` is simple at `i`: the character there is none of `$`, `#`
/// and `?`, and where it is `*` it is a chunk of its own.
pub open spec fn simple_at(text: Seq<char>, i: int) -> bool {
    &&& text[i] != '$'
    &&& text[i] != '#'
    &&& text[i] != '?'
    &&& text[i] == '*' ==> {
        &&& i == 0 || text[i - 1] == '/'
        &&& i == text.len() - 1 || text[i + 1] == '/'
    }
}

/// Whether `text` keeps to the simple part of the language of key
/// expressions: it holds no `$`, `#` or `?`, and no `*` but as a chunk of
/// its own.
pub open spec fn is_simple(text: Seq<char>) -> bool {
    forall|i: int| 0 <= i < text.len() ==> #[trigger] simple_at(text, i)
}

/// Whether no chunk of `text` ends at `i` only to be followed by an empty
/// one.
pub open spec fn parted_at(text: Seq<char>, i: int) -> bool {
    !(text[i] == '/' && text[i + 1] == '/')
}

/// Whether `text` is a list of chunks parted by `/`, none of them empty:
/// it is not empty, neither starts nor ends with `/`, and holds no `//`.
pub open spec fn is_well_parted(text: Seq<char>) -> bool {
    &&& text.len() > 0
    &&& text[0] != '/'
    &&& text[text.len() - 1] != '/'
    &&& forall|i: int| 0 <= i < text.len() - 1 ==> #[trigger] parted_at(text, i)
}

/// Asks `zenoh::key_expr::KeyExpr::new` whether it accepts `text`. That
/// constructor only validates: it accepts a text exactly when the text is a
/// well-formed key expression in canonical form, and leaves it unchanged.
/// The verdict is a function of the text alone, which `is_key_expr` names.
///
/// Of a simple text the constructor asks only that no chunk is empty: its
/// rules beyond that are about `$`, `#`, `?`, about `*` inside a chunk and
/// about `**`, none of which a simple text holds.
#[verifier::external_body]
fn accepts(text: &str) -> (ok: bool)
    ensures
        ok == is_key_expr(text@),
        is_simple(text@) ==> ok == is_well_parted(text@),
{
    zenoh::key_expr::KeyExpr::new(text).is_ok()
}

/// A text that the transport accepts as a key expression.
#[derive(Debug, PartialEq, Eq, Hash)]
pub struct KeyExpr {
    text: String,
}

impl View for KeyExpr {
    type V = Seq<char>;

    closed spec fn view(&self) -> Seq<char> {
        self.text@
    }
}

impl KeyExpr {
    #[verifier::type_invariant]
    spec fn accepted(self) -> bool {
        &&& is_key_expr(self.text@)
        &&& is_simple(self.text@) ==> is_well_parted(self.text@)
    }

    /// Makes a key expression of `text`, or fails with `Error::Address`
    /// where the transport does not accept it. A simple text is accepted
    /// exactly if none of its chunks is empty.
    pub fn new(text: &str) -> (r: Result<KeyExpr, Error>)
        ensures
            match r {
                Ok(key) => is_key_expr(text@) && key@ == text@,
                Err(e) => !is_key_expr(text@) && e == Error::Address,
            },
            is_simple(text@) ==> (r is Ok <==> is_well_parted(text@)),
    {
        if accepts(text) {
            Ok(KeyExpr { text: String::from_str(text) })
        } else {
            Err(Error::Address)
        }
    }

    /// The text of this key expression.
    pub fn as_str(&self) -> (r: &str)
        ensures
            r@ == self@,
            is_key_expr(self@),
            is_simple(self@) ==> is_well_parted(self@),
    {
        proof {
            use_type_invariant(self);
        }
        self.text.as_str()
    }

    /// Whether `self` and `other` are the same text.
    pub fn same(&self, other: &KeyExpr) -> (r: bool)
        ensures
            r == (self@ == other@),
    {
        self.text == other.text
    }
}

impl Clone for KeyExpr {
    fn clone(&self) -> (r: Self)
        ensures
            r@ == self@,
    {
        proof {
            use_type_invariant(self);
        }
        KeyExpr { text: self.text.clone() }
    }
}

/// The texts of `keys`, in the same order.
pub open spec fn texts(keys: Seq<KeyExpr>) -> Seq<Seq<char>> {
    keys.map_values(|key: KeyExpr| key@)
}

/// Whether `key` is one of `keys`.
pub fn contains_key(keys: &Vec<KeyExpr>, key: &KeyExpr) -> (r: bool)
    ensures
        r == texts(keys@).contains(key@),
{
    let mut i: usize = 0;
    while i < keys.len()
        invariant
            i <= keys.len(),
            forall|j: int| 0 <= j < i ==> texts(keys@)[j] != key@,
        decreases keys.len() - i,
    {
        if keys[i].same(key) {
            assert(texts(keys@)[i as int] == key@);
            return true;
        }
        i = i + 1;
    }
    false
}

/// Whether `key` is one of the first `end` of `keys`.
pub(crate) fn contains_key_before(keys: &Vec<KeyExpr>, end: usize, key: &KeyExpr) -> (r: bool)
    requires
        end <= keys.len(),
    ensures
        r == texts(keys@).take(end as int).contains(key@),
{
    let mut i: usize = 0;
    while i < end
        invariant
            i <= end <= keys.len(),
            forall|j: int| 0 <= j < i ==> texts(keys@).take(end as int)[j] != key@,
        decreases end - i,
    {
        if keys[i].same(key) {
            assert(texts(keys@).take(end as int)[i as int] == key@);
            return true;
        }
        i = i + 1;
    }
    false
}

/// `ids` without its repeats: each text once, in the order in which `ids`
/// first gives it.
pub open spec fn deduped(ids: Seq<Seq<char>>) -> Seq<Seq<char>>
    decreases ids.len(),
{
    if ids.len() == 0 {
        Seq::empty()
    } else {
        let before = deduped(ids.drop_last());
        if before.contains(ids.last()) {
            before
        } else {
            before.push(ids.last())
        }
    }
}

/// The keys of `keys`, each once, in the order in which `keys` first gives
/// them.
pub fn distinct(keys: &Vec<KeyExpr>) -> (r: Vec<KeyExpr>)
    ensures
        texts(r@) == deduped(texts(keys@)),
{
    let ghost all = texts(keys@);
    let mut found: Vec<KeyExpr> = Vec::new();
    let mut i: usize = 0;
    proof {
        assert(all.take(0) =~= Seq::empty());
        assert(texts(found@) =~= Seq::empty());
    }
    while i < keys.len()
        invariant
            i <= keys.len(),
            all == texts(keys@),
            texts(found@) == deduped(all.take(i as int)),
        decreases keys.len() - i,
    {
        proof {
            assert(all.take(i + 1).drop_last() =~= all.take(i as int));
            assert(all.take(i + 1).last() == keys@[i as int]@);
        }
        let ghost before = found@;
        if !contains_key(&found, &keys[i]) {
            found.push(keys[i].clone());
            assert(texts(found@) =~= texts(before).push(keys@[i as int]@));
        }
        i = i + 1;
    }
    proof {
        assert(all.take(keys.len() as int) =~= all);
    }
    found
}

/// Taking the repeats out loses no text, adds none, and leaves none twice.
pub proof fn lemma_deduped_exact(ids: Seq<Seq<char>>)
    ensures
        deduped(ids).no_duplicates(),
        forall|id: Seq<char>| deduped(ids).contains(id) <==> ids.contains(id),
    decreases ids.len(),
{
    if ids.len() > 0 {
        let front = ids.drop_last();
        lemma_deduped_exact(front);
        let before = deduped(front);
        let now = deduped(ids);
        let last = ids.last();
        assert forall|id: Seq<char>| now.contains(id) implies ids.contains(id) by {
            if before.contains(id) {
                assert(front.contains(id));
                let k = choose|k: int| 0 <= k < front.len() && front[k] == id;
                assert(ids[k] == id);
            } else {
                let k = choose|k: int| 0 <= k < now.len() && now[k] == id;
                assert(now == before.push(last));
                assert(ids[ids.len() - 1] == id);
            }
        }
        assert forall|id: Seq<char>| ids.contains(id) implies now.contains(id) by {
            let k = choose|k: int| 0 <= k < ids.len() && ids[k] == id;
            if k < front.len() {
                assert(front[k] == id);
                assert(front.contains(id));
                assert(before.contains(id));
                let m = choose|m: int| 0 <= m < before.len() && before[m] == id;
                assert(now[m] == id);
            } else {
                if before.contains(id) {
                    assert(now == before);
                } else {
                    assert(now == before.push(id));
                    assert(now[before.len() as int] == id);
                }
            }
        }
    }
}

} // verus!
