//! The order of byte strings and of texts, and sets of texts in that order.
use crate::text;
use crate::text::same_text;
use vstd::prelude::*;
use vstd::string::StringSliceAdditionalSpecFns;

verus! {

/// Whether `a` comes before `b`: at the first place where they differ, `a` holds the smaller
/// byte or has ended.
pub open spec fn bytes_lt(a: Seq<u8>, b: Seq<u8>) -> bool
    decreases b.len(),
{
    b.len() > 0 && (a.len() == 0 || a[0] < b[0] || (a[0] == b[0] && bytes_lt(
        a.drop_first(),
        b.drop_first(),
    )))
}

/// Whether a text comes before another one: whether its UTF-8 bytes do.
pub open spec fn text_lt(a: Seq<char>, b: Seq<char>) -> bool {
    bytes_lt(vstd::utf8::encode_utf8(a), vstd::utf8::encode_utf8(b))
}

/// Nothing comes before itself.
pub proof fn lemma_bytes_lt_irreflexive(a: Seq<u8>)
    ensures
        !bytes_lt(a, a),
    decreases a.len(),
{
    if a.len() > 0 {
        lemma_bytes_lt_irreflexive(a.drop_first());
    }
}

/// What comes before something that comes before a third comes before the third.
pub proof fn lemma_bytes_lt_transitive(a: Seq<u8>, b: Seq<u8>, c: Seq<u8>)
    requires
        bytes_lt(a, b),
        bytes_lt(b, c),
    ensures
        bytes_lt(a, c),
    decreases c.len(),
{
    if a.len() > 0 && a[0] == b[0] && b[0] == c[0] {
        lemma_bytes_lt_transitive(a.drop_first(), b.drop_first(), c.drop_first());
    }
}

/// Of two that differ one comes before the other.
pub proof fn lemma_bytes_lt_total(a: Seq<u8>, b: Seq<u8>)
    ensures
        a == b || bytes_lt(a, b) || bytes_lt(b, a),
    decreases a.len(),
{
    if a.len() > 0 && b.len() > 0 && a[0] == b[0] {
        lemma_bytes_lt_total(a.drop_first(), b.drop_first());
        if a.drop_first() == b.drop_first() {
            assert(a =~= seq![a[0]] + a.drop_first());
            assert(b =~= seq![b[0]] + b.drop_first());
        }
    } else if a.len() == 0 && b.len() == 0 {
        assert(a =~= b);
    }
}

/// Whether `a` comes before `b`.
pub fn bytes_before(a: &[u8], b: &[u8]) -> (yes: bool)
    ensures
        yes == bytes_lt(a@, b@),
{
    let mut i: usize = 0;
    assert(a@.skip(0) =~= a@);
    assert(b@.skip(0) =~= b@);
    while i < b.len()
        invariant
            i <= a@.len(),
            i <= b@.len(),
            bytes_lt(a@.skip(i as int), b@.skip(i as int)) == bytes_lt(a@, b@),
        decreases b@.len() - i,
    {
        assert(b@.skip(i as int).drop_first() =~= b@.skip(i + 1));
        if i == a.len() {
            return true;
        }
        assert(a@.skip(i as int).drop_first() =~= a@.skip(i + 1));
        if a[i] < b[i] {
            return true;
        }
        if b[i] < a[i] {
            return false;
        }
        i += 1;
    }
    false
}

/// Whether each text of a list comes before the next ones.
pub open spec fn strictly_sorted(list: Seq<Seq<char>>) -> bool {
    forall|i: int, j: int|
        0 <= i < j < list.len() ==> text_lt(#[trigger] list[i], #[trigger] list[j])
}

/// A set of texts, in their order.
#[derive(Debug)]
pub struct TextSet {
    items: Vec<String>,
}

impl TextSet {
    /// The texts of the set, in their order.
    pub closed spec fn list(&self) -> Seq<Seq<char>> {
        text::texts(self.items@)
    }

    /// Whether the texts are in order, none of them twice.
    pub open spec fn wf(&self) -> bool {
        strictly_sorted(self.list())
    }

    /// An empty set.
    pub fn new() -> (set: TextSet)
        ensures
            set.wf(),
            set.list() == Seq::<Seq<char>>::empty(),
    {
        let set = TextSet { items: Vec::new() };
        assert(set.list() =~= Seq::<Seq<char>>::empty());
        set
    }

    /// Adds a text, unless the set holds it.
    pub fn insert(&mut self, item: String)
        requires
            old(self).wf(),
        ensures
            final(self).wf(),
            final(self).list().to_set() == old(self).list().to_set().insert(item@),
    {
        let ghost before = self.list();
        let mut i: usize = 0;
        while i < self.items.len() && bytes_before(
            self.items[i].as_str().as_bytes(),
            item.as_str().as_bytes(),
        )
            invariant
                i <= self.items@.len(),
                self.list() == before,
                forall|j: int| 0 <= j < i ==> text_lt(#[trigger] before[j], item@),
            decreases self.items@.len() - i,
        {
            i += 1;
        }
        if i < self.items.len() && same_text(self.items[i].as_str(), item.as_str()) {
            proof {
                assert(before.contains(item@)) by {
                    assert(before[i as int] == item@);
                }
                assert(before.to_set().insert(item@) =~= before.to_set());
            }
            return;
        }
        self.items.insert(i, item);
        proof {
            let after = self.list();
            assert(after =~= before.insert(i as int, item@));
            if i < before.len() {
                lemma_text_total(before[i as int], item@);
                assert forall|j: int| i <= j < before.len() implies text_lt(
                    item@,
                    #[trigger] before[j],
                ) by {
                    if j > i {
                        lemma_bytes_lt_transitive(
                            vstd::utf8::encode_utf8(item@),
                            vstd::utf8::encode_utf8(before[i as int]),
                            vstd::utf8::encode_utf8(before[j]),
                        );
                    }
                }
            }
            assert forall|a: int, b: int| 0 <= a < b < after.len() implies text_lt(
                #[trigger] after[a],
                #[trigger] after[b],
            ) by {
                let pa = if a < i {
                    a
                } else {
                    a - 1
                };
                let pb = if b < i {
                    b
                } else {
                    b - 1
                };
                if a != i && b != i {
                    assert(after[a] == before[pa] && after[b] == before[pb]);
                } else if a == i {
                    assert(after[b] == before[pb]);
                } else {
                    assert(after[a] == before[pa]);
                }
            }
            assert(after.to_set() =~= before.to_set().insert(item@)) by {
                assert forall|t: Seq<char>| after.contains(t) implies before.to_set().insert(
                    item@,
                ).contains(t) by {
                    let k = choose|k: int| 0 <= k < after.len() && after[k] == t;
                    if k < i {
                        assert(before[k] == t);
                    } else if k > i {
                        assert(before[k - 1] == t);
                    }
                }
                assert forall|t: Seq<char>| before.to_set().insert(item@).contains(
                    t,
                ) implies after.contains(t) by {
                    if t == item@ {
                        assert(after[i as int] == t);
                    } else {
                        let k = choose|k: int| 0 <= k < before.len() && before[k] == t;
                        if k < i {
                            assert(after[k] == t);
                        } else {
                            assert(after[k + 1] == t);
                        }
                    }
                }
            }
        }
    }

    /// The texts of the set, in their order.
    pub fn into_list(self) -> (list: Vec<String>)
        ensures
            text::texts(list@) == self.list(),
    {
        self.items
    }
}

/// Of two texts that differ one comes before the other.
pub proof fn lemma_text_total(a: Seq<char>, b: Seq<char>)
    ensures
        a == b || text_lt(a, b) || text_lt(b, a),
{
    lemma_bytes_lt_total(vstd::utf8::encode_utf8(a), vstd::utf8::encode_utf8(b));
    vstd::utf8::encode_utf8_decode_utf8(a);
    vstd::utf8::encode_utf8_decode_utf8(b);
}

/// Two lists in strict order that hold the same texts are the same list.
pub proof fn law_sorted_list_is_unique(a: Seq<Seq<char>>, b: Seq<Seq<char>>)
    requires
        strictly_sorted(a),
        strictly_sorted(b),
        a.to_set() == b.to_set(),
    ensures
        a == b,
    decreases a.len(),
{
    if a.len() == 0 {
        if b.len() > 0 {
            assert(b.to_set().contains(b[0]));
            assert(a.contains(b[0]));
        }
        assert(a =~= b);
    } else {
        assert(a.to_set().contains(a.last()));
        assert(b.contains(a.last()));
        assert(b.len() > 0);
        assert(b.to_set().contains(b.last()));
        assert(a.contains(b.last()));
        let i = choose|i: int| 0 <= i < a.len() && a[i] == b.last();
        let j = choose|j: int| 0 <= j < b.len() && b[j] == a.last();
        if a.last() != b.last() {
            assert(text_lt(a[i], a.last()));
            assert(text_lt(b[j], b.last()));
            lemma_bytes_lt_transitive(
                vstd::utf8::encode_utf8(a.last()),
                vstd::utf8::encode_utf8(b.last()),
                vstd::utf8::encode_utf8(a.last()),
            );
            lemma_bytes_lt_irreflexive(vstd::utf8::encode_utf8(a.last()));
        }
        let a0 = a.drop_last();
        let b0 = b.drop_last();
        assert(a0.to_set() =~= a.to_set().remove(a.last())) by {
            lemma_drop_last_set(a);
        }
        assert(b0.to_set() =~= b.to_set().remove(b.last())) by {
            lemma_drop_last_set(b);
        }
        law_sorted_list_is_unique(a0, b0);
        assert(a =~= a0.push(a.last()));
        assert(b =~= b0.push(b.last()));
    }
}

/// Without its last text, a list in strict order holds all of its other texts.
proof fn lemma_drop_last_set(a: Seq<Seq<char>>)
    requires
        strictly_sorted(a),
        a.len() > 0,
    ensures
        a.drop_last().to_set() =~= a.to_set().remove(a.last()),
{
    assert forall|t: Seq<char>| a.drop_last().contains(t) implies a.to_set().remove(
        a.last(),
    ).contains(t) by {
        let k = choose|k: int| 0 <= k < a.len() - 1 && a.drop_last()[k] == t;
        assert(a[k] == t);
        assert(text_lt(a[k], a[a.len() - 1]));
        lemma_bytes_lt_irreflexive(vstd::utf8::encode_utf8(t));
    }
    assert forall|t: Seq<char>| a.to_set().remove(a.last()).contains(
        t,
    ) implies a.drop_last().contains(t) by {
        let k = choose|k: int| 0 <= k < a.len() && a[k] == t;
        assert(a.drop_last()[k] == t);
    }
}

/// A list in strict order holds no text twice.
pub proof fn law_sorted_list_has_no_duplicates(list: Seq<Seq<char>>)
    requires
        strictly_sorted(list),
    ensures
        list.no_duplicates(),
{
    assert forall|i: int, j: int| 0 <= i < j < list.len() implies list[i] != list[j] by {
        assert(text_lt(list[i], list[j]));
        lemma_bytes_lt_irreflexive(vstd::utf8::encode_utf8(list[i]));
    }
}

/// One byte string comes before another exactly if it is the beginning of it, or holds the smaller
/// byte at the first place where they differ.
pub proof fn law_bytes_lt_is_lexicographic(a: Seq<u8>, b: Seq<u8>)
    ensures
        bytes_lt(a, b) <==> (a.len() < b.len() && a == b.take(a.len() as int)) || exists|k: int|
            0 <= k < a.len() && k < b.len() && a[k] < b[k] && #[trigger] a.take(k) == b.take(k),
    decreases b.len(),
{
    if b.len() == 0 {
    } else if a.len() == 0 {
        assert(a =~= b.take(0));
    } else if a[0] != b[0] {
        assert(a.take(0) =~= b.take(0));
        if a.len() < b.len() && a == b.take(a.len() as int) {
            assert(b.take(a.len() as int)[0] == b[0]);
        }
        if exists|k: int|
            0 <= k < a.len() && k < b.len() && a[k] < b[k] && #[trigger] a.take(k) == b.take(k) {
            let k = choose|k: int|
                0 <= k < a.len() && k < b.len() && a[k] < b[k] && #[trigger] a.take(k) == b.take(k);
            if k > 0 {
                assert(a.take(k)[0] == b.take(k)[0]);
            }
        }
    } else {
        let a1 = a.drop_first();
        let b1 = b.drop_first();
        law_bytes_lt_is_lexicographic(a1, b1);
        if bytes_lt(a1, b1) {
            if a1.len() < b1.len() && a1 == b1.take(a1.len() as int) {
                assert forall|i: int| 0 <= i < a.len() implies a[i] == b[i] by {
                    if i > 0 {
                        assert(a1[i - 1] == b1.take(a1.len() as int)[i - 1]);
                    }
                }
                assert(a =~= b.take(a.len() as int));
            } else {
                let k = choose|k: int|
                    0 <= k < a1.len() && k < b1.len() && a1[k] < b1[k] && #[trigger] a1.take(k)
                        == b1.take(k);
                assert forall|i: int| 0 <= i < k + 1 implies a[i] == b[i] by {
                    if i > 0 {
                        assert(a1.take(k)[i - 1] == b1.take(k)[i - 1]);
                    }
                }
                assert(a.take(k + 1) =~= b.take(k + 1));
                assert(a[k + 1] < b[k + 1]);
            }
        }
        if a.len() < b.len() && a == b.take(a.len() as int) {
            assert(a1 =~= b1.take(a1.len() as int)) by {
                assert forall|i: int| 0 <= i < a1.len() implies a1[i] == b1[i] by {
                    assert(a[i + 1] == b.take(a.len() as int)[i + 1]);
                }
            }
        }
        if exists|k: int|
            0 <= k < a.len() && k < b.len() && a[k] < b[k] && #[trigger] a.take(k) == b.take(k) {
            let k = choose|k: int|
                0 <= k < a.len() && k < b.len() && a[k] < b[k] && #[trigger] a.take(k) == b.take(k);
            assert forall|i: int| 0 <= i < k - 1 implies a1[i] == b1[i] by {
                assert(a.take(k)[i + 1] == b.take(k)[i + 1]);
            }
            assert(a1.take(k - 1) =~= b1.take(k - 1));
            assert(a1[k - 1] < b1[k - 1]);
        }
    }
}

/// Texts are in the order of their UTF-8 bytes.
pub proof fn law_texts_are_ordered_by_bytes(a: Seq<char>, b: Seq<char>)
    ensures
        text_lt(a, b) == bytes_lt(vstd::utf8::encode_utf8(a), vstd::utf8::encode_utf8(b)),
{
}

/// A list is in strict order exactly if the UTF-8 bytes of each of its texts come before those of
/// all later ones.
pub proof fn law_strict_order(list: Seq<Seq<char>>)
    ensures
        strictly_sorted(list) <==> forall|i: int, j: int|
            0 <= i < j < list.len() ==> bytes_lt(
                vstd::utf8::encode_utf8(#[trigger] list[i]),
                vstd::utf8::encode_utf8(#[trigger] list[j]),
            ),
{
    if forall|i: int, j: int|
        0 <= i < j < list.len() ==> bytes_lt(
            vstd::utf8::encode_utf8(#[trigger] list[i]),
            vstd::utf8::encode_utf8(#[trigger] list[j]),
        ) {
        assert forall|i: int, j: int| 0 <= i < j < list.len() implies text_lt(
            #[trigger] list[i],
            #[trigger] list[j],
        ) by {}
    }
    if strictly_sorted(list) {
        assert forall|i: int, j: int| 0 <= i < j < list.len() implies bytes_lt(
            vstd::utf8::encode_utf8(#[trigger] list[i]),
            vstd::utf8::encode_utf8(#[trigger] list[j]),
        ) by {
            assert(text_lt(list[i], list[j]));
        }
    }
}

} // verus!
